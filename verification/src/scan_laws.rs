//! What holds of every scan.

use vstd::prelude::*;

use crate::discovery::FileView;
use crate::line::ContentView;
use crate::model::CallView;
use crate::model::ResultView;
use crate::model::SourceFormat;
use crate::parser::all_steps;
use crate::parser::content_len;
use crate::parser::first_of;
use crate::parser::lemma_counts_within;
use crate::parser::lemma_whole_lines_len;
use crate::parser::parsed;
use crate::parser::reading;
use crate::parser::whole_lines;
use crate::parser::FileContentView;
use crate::resume::lemma_reading_end;
use crate::scan::call_key;
use crate::scan::candidates;
use crate::scan::covers;
use crate::scan::event_counts;
use crate::scan::file_calls;
use crate::scan::firsts;
use crate::scan::has_call_key;
use crate::scan::has_record_of;
use crate::scan::is_primary;
use crate::scan::results_of;
use crate::scan::scan_call;
use crate::scan::scanned_calls;

verus! {

/// Every call that counts is there, by its key, and no key is there twice.
pub proof fn law_each_key_once(calls: Seq<CallView>)
    ensures
        forall|k: Seq<char>| has_call_key(firsts(calls), k) <==> has_call_key(calls, k),
        forall|i: int, j: int|
            0 <= i < j < firsts(calls).len() ==> call_key(#[trigger] firsts(calls)[i]) != call_key(
                #[trigger] firsts(calls)[j],
            ),
    decreases calls.len(),
{
    if calls.len() > 0 {
        let init = calls.drop_last();
        let last = calls.last();
        law_each_key_once(init);
        let kept = firsts(init);
        assert forall|k: Seq<char>| has_call_key(firsts(calls), k) <==> has_call_key(calls, k) by {
            if has_call_key(init, k) {
                let i = choose|i: int| 0 <= i < init.len() && call_key(#[trigger] init[i]) == k;
                assert(call_key(calls[i]) == k);
            }
            if has_call_key(kept, k) {
                let i = choose|i: int| 0 <= i < kept.len() && call_key(#[trigger] kept[i]) == k;
                assert(call_key(firsts(calls)[i]) == k);
            }
            if has_call_key(calls, k) && !has_call_key(init, k) {
                let i = choose|i: int| 0 <= i < calls.len() && call_key(#[trigger] calls[i]) == k;
                if i < init.len() {
                    assert(call_key(init[i]) == k);
                }
                assert(call_key(firsts(calls)[kept.len() as int]) == k);
            }
            if has_call_key(firsts(calls), k) && !has_call_key(kept, k) {
                let i = choose|i: int|
                    0 <= i < firsts(calls).len() && call_key(#[trigger] firsts(calls)[i]) == k;
                if i < kept.len() {
                    assert(call_key(kept[i]) == k);
                }
                assert(call_key(calls[init.len() as int]) == k);
            }
        }
        if !has_call_key(init, call_key(last)) {
            assert forall|i: int, j: int| 0 <= i < j < firsts(calls).len() implies call_key(
                #[trigger] firsts(calls)[i],
            ) != call_key(#[trigger] firsts(calls)[j]) by {
                assert(firsts(calls)[i] == kept[i]);
                if j < kept.len() {
                    assert(firsts(calls)[j] == kept[j]);
                } else {
                    assert(call_key(kept[i]) == call_key(kept[i]));
                    assert(has_call_key(kept, call_key(kept[i])));
                }
            }
        }
    }
}

/// Every call of a scan is one that counts.
pub proof fn lemma_firsts_are_calls(calls: Seq<CallView>, i: int)
    requires
        0 <= i < firsts(calls).len(),
    ensures
        exists|j: int| 0 <= j < calls.len() && #[trigger] calls[j] == firsts(calls)[i],
    decreases calls.len(),
{
    if calls.len() > 0 {
        let init = calls.drop_last();
        if i < firsts(init).len() {
            lemma_firsts_are_calls(init, i);
            let j = choose|j: int| 0 <= j < init.len() && #[trigger] init[j] == firsts(init)[i];
            assert(calls[j] == firsts(calls)[i]);
        } else {
            assert(calls[calls.len() - 1] == firsts(calls)[i]);
        }
    }
}

/// Where a call of a file comes from.
pub open spec fn comes_from(
    results: Seq<ResultView>,
    files: Seq<FileView>,
    c: CallView,
    i: int,
    j: int,
) -> bool {
    &&& 0 <= i < results.len()
    &&& 0 <= j < results[i].raw_calls.len()
    &&& event_counts(results, results[i], results[i].raw_calls[j])
    &&& c == scan_call(results[i], files[i], results[i].raw_calls[j])
}

proof fn lemma_file_call_source(
    results: Seq<ResultView>,
    r: ResultView,
    f: FileView,
    n: nat,
    x: int,
) -> (j: int)
    requires
        n <= r.raw_calls.len(),
        0 <= x < file_calls(results, r, f, n).len(),
    ensures
        0 <= j < n,
        event_counts(results, r, r.raw_calls[j]),
        file_calls(results, r, f, n)[x] == scan_call(r, f, r.raw_calls[j]),
    decreases n,
{
    if n == 0 {
        0
    } else {
        let init = file_calls(results, r, f, (n - 1) as nat);
        if x < init.len() {
            lemma_file_call_source(results, r, f, (n - 1) as nat, x)
        } else {
            n - 1
        }
    }
}

/// Every call that counts comes from an event of some file.
pub proof fn lemma_candidate_source(
    results: Seq<ResultView>,
    files: Seq<FileView>,
    n: nat,
    x: int,
) -> (at: (int, int))
    requires
        n <= results.len(),
        0 <= x < candidates(results, files, n).len(),
    ensures
        comes_from(results, files, candidates(results, files, n)[x], at.0, at.1),
    decreases n,
{
    if n == 0 {
        (0, 0)
    } else {
        let init = candidates(results, files, (n - 1) as nat);
        let r = results[n - 1];
        if x < init.len() {
            lemma_candidate_source(results, files, (n - 1) as nat, x)
        } else {
            let j = lemma_file_call_source(
                results,
                r,
                files[n - 1],
                r.raw_calls.len(),
                x - init.len(),
            );
            (n - 1, j)
        }
    }
}

pub proof fn lemma_records_are_counted(contents: Seq<ContentView>, first: nat)
    requires
        contents.len() <= u64::MAX,
    ensures
        ({
            let r = all_steps(contents, first);
            forall|j: int|
                0 <= j < r.raw_calls.len() && (#[trigger] r.raw_calls[j]).source_format
                    == SourceFormat::TokenUsageRecord ==> r.primary_events > 0
        }),
    decreases contents.len(),
{
    if contents.len() > 0 {
        lemma_records_are_counted(contents.drop_last(), first);
        lemma_counts_within(contents.drop_last(), first);
        let prior = all_steps(contents.drop_last(), first);
        let r = all_steps(contents, first);
        assert forall|j: int|
            0 <= j < r.raw_calls.len() && (#[trigger] r.raw_calls[j]).source_format
                == SourceFormat::TokenUsageRecord implies r.primary_events > 0 by {
            if j < prior.raw_calls.len() {
                assert(r.raw_calls[j] == prior.raw_calls[j]);
            }
        }
    }
}

/// A stretch of a file with a usage record is known to have one.
pub proof fn lemma_file_with_record(
    content: FileContentView,
    start: int,
    first: nat,
    pending: bool,
    j: int,
)
    requires
        0 <= start,
        content_len(content) <= u64::MAX,
        ({
            let r = parsed(content, start, first, pending).result;
            0 <= j < r.raw_calls.len() && r.raw_calls[j].source_format
                == SourceFormat::TokenUsageRecord
        }),
    ensures
        parsed(content, start, first, pending).result.primary_events > 0,
{
    match content {
        FileContentView::Whole(bytes) => {
            lemma_reading_end(bytes, start, pending);
            lemma_records_are_counted(reading(bytes, start, pending).contents, first);
        },
        FileContentView::Broken(bytes, e) => {
            lemma_whole_lines_len(bytes);
            lemma_reading_end(whole_lines(bytes), start, pending);
            lemma_records_are_counted(reading(whole_lines(bytes), start, pending).contents, first);
        },
        FileContentView::Unreadable(e) => {},
    }
}

/// The two methods are never mixed for one session: where a scan counts a usage record of a
/// session, in whatever file, it counts no legacy event of that session.
pub proof fn law_scan_never_mixes_methods(
    contents: Seq<FileContentView>,
    files: Seq<FileView>,
    a: int,
    b: int,
)
    requires
        files.len() == contents.len(),
        forall|i: int| 0 <= i < contents.len() ==> content_len(#[trigger] contents[i]) <= u64::MAX,
        ({
            let calls = scanned_calls(results_of(contents), files);
            &&& 0 <= a < calls.len()
            &&& 0 <= b < calls.len()
            &&& calls[a].source_format == SourceFormat::LegacyTokenCount
            &&& calls[b].source_format == SourceFormat::TokenUsageRecord
            &&& calls[b].session_id is Some
        }),
    ensures
        ({
            let calls = scanned_calls(results_of(contents), files);
            calls[a].session_id != calls[b].session_id
        }),
{
    let results = results_of(contents);
    let all = candidates(results, files, results.len());
    let calls = firsts(all);
    lemma_firsts_are_calls(all, a);
    lemma_firsts_are_calls(all, b);
    let x = choose|x: int| 0 <= x < all.len() && #[trigger] all[x] == calls[a];
    let y = choose|y: int| 0 <= y < all.len() && #[trigger] all[y] == calls[b];
    let (i, j) = lemma_candidate_source(results, files, results.len(), x);
    let (k, l) = lemma_candidate_source(results, files, results.len(), y);
    let r = results[k];
    let e = r.raw_calls[l];
    assert(content_len(contents[k]) <= u64::MAX);
    lemma_file_with_record(contents[k], 0, 0, false, l);
    let s = calls[b].session_id->0;
    if e.session_id is Some {
        assert(has_record_of(r.raw_calls, s)) by {
            assert(r.raw_calls[l].session_id == Some(s));
        }
    }
    assert(covers(results[k], s));
    assert(is_primary(results, s));
}

proof fn lemma_primary_of_copy(results: Seq<ResultView>, i: int, s: Seq<char>)
    requires
        0 <= i < results.len(),
    ensures
        is_primary(results.push(results[i]), s) == is_primary(results, s),
{
    let more = results.push(results[i]);
    if is_primary(results, s) {
        let k = choose|k: int| 0 <= k < results.len() && covers(#[trigger] results[k], s);
        assert(covers(more[k], s));
    }
    if is_primary(more, s) {
        let k = choose|k: int| 0 <= k < more.len() && covers(#[trigger] more[k], s);
        if k < results.len() {
            assert(covers(results[k], s));
        } else {
            assert(covers(results[i], s));
        }
    }
}

proof fn lemma_file_calls_of_copy(
    results: Seq<ResultView>,
    i: int,
    r: ResultView,
    f: FileView,
    n: nat,
)
    requires
        0 <= i < results.len(),
        n <= r.raw_calls.len(),
    ensures
        file_calls(results.push(results[i]), r, f, n) == file_calls(results, r, f, n),
    decreases n,
{
    if n > 0 {
        lemma_file_calls_of_copy(results, i, r, f, (n - 1) as nat);
        let e = r.raw_calls[n - 1];
        let session = first_of(e.session_id, r.meta.session_id);
        if session is Some {
            lemma_primary_of_copy(results, i, session->0);
        }
    }
}

proof fn lemma_candidates_of_copy(
    results: Seq<ResultView>,
    files: Seq<FileView>,
    i: int,
    f: FileView,
    n: nat,
)
    requires
        0 <= i < results.len(),
        files.len() == results.len(),
        n <= results.len(),
    ensures
        candidates(results.push(results[i]), files.push(f), n) == candidates(results, files, n),
    decreases n,
{
    if n > 0 {
        lemma_candidates_of_copy(results, files, i, f, (n - 1) as nat);
        let r = results[n - 1];
        lemma_file_calls_of_copy(results, i, r, files[n - 1], r.raw_calls.len());
        assert(results.push(results[i])[n - 1] == r);
        assert(files.push(f)[n - 1] == files[n - 1]);
    }
}

/// In whatever place a file lies, its calls have the same keys.
proof fn lemma_same_keys(
    results: Seq<ResultView>,
    r: ResultView,
    f: FileView,
    g: FileView,
    n: nat,
)
    requires
        n <= r.raw_calls.len(),
    ensures
        file_calls(results, r, f, n).len() == file_calls(results, r, g, n).len(),
        forall|x: int|
            0 <= x < file_calls(results, r, f, n).len() ==> call_key(
                #[trigger] file_calls(results, r, f, n)[x],
            ) == call_key(file_calls(results, r, g, n)[x]),
    decreases n,
{
    if n > 0 {
        lemma_same_keys(results, r, f, g, (n - 1) as nat);
        let (a, b) = (
            file_calls(results, r, f, (n - 1) as nat),
            file_calls(results, r, g, (n - 1) as nat),
        );
        let e = r.raw_calls[n - 1];
        assert(call_key(scan_call(r, f, e)) == call_key(scan_call(r, g, e)));
        assert forall|x: int| 0 <= x < file_calls(results, r, f, n).len() implies call_key(
            #[trigger] file_calls(results, r, f, n)[x],
        ) == call_key(file_calls(results, r, g, n)[x]) by {
            if x < a.len() {
                assert(file_calls(results, r, f, n)[x] == a[x]);
                assert(file_calls(results, r, g, n)[x] == b[x]);
            }
        }
    }
}

pub proof fn lemma_candidates_hold_file(
    results: Seq<ResultView>,
    files: Seq<FileView>,
    n: nat,
    i: int,
    x: int,
)
    requires
        n <= results.len(),
        0 <= i < n,
        0 <= x < file_calls(results, results[i], files[i], results[i].raw_calls.len()).len(),
    ensures
        has_call_key(
            candidates(results, files, n),
            call_key(file_calls(results, results[i], files[i], results[i].raw_calls.len())[x]),
        ),
    decreases n,
{
    let all = candidates(results, files, n);
    let init = candidates(results, files, (n - 1) as nat);
    let k = call_key(file_calls(results, results[i], files[i], results[i].raw_calls.len())[x]);
    if i == n - 1 {
        assert(call_key(all[init.len() + x]) == k);
    } else {
        lemma_candidates_hold_file(results, files, (n - 1) as nat, i, x);
        let y = choose|y: int| 0 <= y < init.len() && call_key(#[trigger] init[y]) == k;
        assert(call_key(all[y]) == k);
    }
}

/// Calls whose keys all occur before add nothing.
proof fn lemma_repeats_add_nothing(calls: Seq<CallView>, more: Seq<CallView>)
    requires
        forall|x: int| 0 <= x < more.len() ==> has_call_key(calls, call_key(#[trigger] more[x])),
    ensures
        firsts(calls + more) == firsts(calls),
    decreases more.len(),
{
    if more.len() == 0 {
        assert(calls + more =~= calls);
    } else {
        let init = more.drop_last();
        assert((calls + more).drop_last() =~= calls + init);
        assert forall|x: int| 0 <= x < init.len() implies has_call_key(
            calls,
            call_key(#[trigger] init[x]),
        ) by {
            assert(init[x] == more[x]);
        }
        lemma_repeats_add_nothing(calls, init);
        let k = call_key(more.last());
        assert(more[more.len() - 1] == more.last());
        let i = choose|i: int| 0 <= i < calls.len() && call_key(#[trigger] calls[i]) == k;
        assert(call_key((calls + init)[i]) == k);
    }
}

/// A copy of a file, wherever it lies, adds no call: a file that stands both among the active and
/// among the archived ones is counted once.
pub proof fn law_copy_of_a_file_adds_nothing(
    results: Seq<ResultView>,
    files: Seq<FileView>,
    i: int,
    copy: FileView,
)
    requires
        files.len() == results.len(),
        0 <= i < results.len(),
    ensures
        scanned_calls(results.push(results[i]), files.push(copy)) == scanned_calls(results, files),
{
    let n = results.len();
    let more = results.push(results[i]);
    let r = results[i];
    let all = candidates(results, files, n);
    let added = file_calls(more, r, copy, r.raw_calls.len());
    lemma_candidates_of_copy(results, files, i, copy, n);
    lemma_file_calls_of_copy(results, i, r, copy, r.raw_calls.len());
    assert(more[n as int] == r && files.push(copy)[n as int] == copy);
    assert(candidates(more, files.push(copy), n + 1) == all + added);
    lemma_same_keys(results, r, copy, files[i], r.raw_calls.len());
    assert forall|x: int| 0 <= x < added.len() implies has_call_key(
        all,
        call_key(#[trigger] added[x]),
    ) by {
        lemma_candidates_hold_file(results, files, n, i, x);
    }
    lemma_repeats_add_nothing(all, added);
}

} // verus!
