//! What counts as unusual, and what does not.

use vstd::prelude::*;

use crate::aggregate::anomalies_of;
use crate::aggregate::at_most_five;
use crate::aggregate::auto_review_anomaly;
use crate::aggregate::busy_days;
use crate::aggregate::heavy_threads;
use crate::aggregate::input_of_days;
use crate::aggregate::input_under;
use crate::aggregate::long_context_anomaly;
use crate::aggregate::low_cache_threads;
use crate::aggregate::thread_usage;
use crate::aggregate::AnomalyView;
use crate::aggregate::Bucket;
use crate::model::usage_sum;
use crate::model::CallView;
use crate::model::TokenUsage;
use crate::text_map::rows_of;

verus! {

/// Each thread is told, with its counts, if and only if it has more than a hundred thousand tokens
/// of input and reads less than seven tenths of them from the cache.
pub proof fn law_low_cache_threads_are_told(
    rows: Seq<(Seq<char>, TokenUsage)>,
    thread: Seq<char>,
    u: TokenUsage,
)
    ensures
        ({
            let (a, b) = (low_cache_threads(rows), low_cache_threads(rows.push((thread, u))));
            let low = u.input_tokens > 100_000 && 10 * u.cached_input_tokens < 7 * u.input_tokens;
            &&& low_cache_threads(Seq::<(Seq<char>, TokenUsage)>::empty()).len() == 0
            &&& low ==> b == a.push(
                AnomalyView::LowCache {
                    thread,
                    cached: u.cached_input_tokens,
                    input: u.input_tokens,
                },
            )
            &&& !low ==> b == a
        }),
{
    assert(rows.push((thread, u)).drop_last() =~= rows);
}

/// Each thread is told, with its input, if and only if that is more than ten million tokens.
pub proof fn law_heavy_threads_are_told(
    rows: Seq<(Seq<char>, TokenUsage)>,
    thread: Seq<char>,
    u: TokenUsage,
)
    ensures
        ({
            let (a, b) = (heavy_threads(rows), heavy_threads(rows.push((thread, u))));
            &&& heavy_threads(Seq::<(Seq<char>, TokenUsage)>::empty()).len() == 0
            &&& u.input_tokens > 10_000_000 ==> b == a.push(
                AnomalyView::HeavyThread { thread, input: u.input_tokens },
            )
            &&& u.input_tokens <= 10_000_000 ==> b == a
        }),
{
    assert(rows.push((thread, u)).drop_last() =~= rows);
}

/// Each day is told, with its input, if and only if that is more than twice the average of the days.
pub proof fn law_busy_days_are_told(
    rows: Seq<(Seq<char>, Bucket)>,
    day: Seq<char>,
    b: Bucket,
    total: u64,
    days: usize,
)
    ensures
        ({
            let (x, y) = (busy_days(rows, total, days), busy_days(rows.push((day, b)), total, days));
            let busy = total > 0 && b.usage.input_tokens * days > 2 * total;
            &&& busy_days(Seq::<(Seq<char>, Bucket)>::empty(), total, days).len() == 0
            &&& busy ==> y == x.push(
                AnomalyView::BusyDay { day, input: b.usage.input_tokens, total, days },
            )
            &&& !busy ==> y == x
        }),
{
    assert(rows.push((day, b)).drop_last() =~= rows);
    assert(b.usage.input_tokens * (days as nat) == b.usage.input_tokens * days);
}

/// The input of the days is that of all of them, modulo 2^64.
pub proof fn law_input_of_days_adds_up(rows: Seq<(Seq<char>, Bucket)>, day: Seq<char>, b: Bucket)
    ensures
        input_of_days(Seq::<(Seq<char>, Bucket)>::empty()) == 0,
        input_of_days(rows.push((day, b))) == input_of_days(rows).wrapping_add(
            b.usage.input_tokens,
        ),
{
    assert(rows.push((day, b)).drop_last() =~= rows);
}

/// Of the threads that read little from the cache the first five are told, or all where there are
/// no more.
pub proof fn law_at_most_five_are_told(s: Seq<AnomalyView>, i: int)
    ensures
        s.len() <= 5 ==> at_most_five(s) == s,
        s.len() > 5 ==> at_most_five(s).len() == 5,
        0 <= i < s.len() && i < 5 ==> at_most_five(s)[i] == s[i],
{
}

/// Auto review is told if and only if its input is more than a tenth of all input.
pub proof fn law_auto_review_is_told(input: u64, total: u64)
    ensures
        total > 0 && 10 * input > total ==> auto_review_anomaly(input, total) == seq![
            AnomalyView::AutoReview { input, total },
        ],
        !(total > 0 && 10 * input > total) ==> auto_review_anomaly(input, total).len() == 0,
{
}

/// The input under a key is that of its bucket, and nothing where there is none.
pub proof fn law_input_under_a_key(table: Map<Seq<char>, Bucket>, k: Seq<char>, b: Bucket)
    ensures
        input_under(table.insert(k, b), k) == b.usage.input_tokens,
        input_under(table.remove(k), k) == 0,
{
}

proof fn lemma_low(rows: Seq<(Seq<char>, TokenUsage)>)
    ensures
        forall|i: int|
            0 <= i < low_cache_threads(rows).len() ==> (#[trigger] low_cache_threads(
                rows,
            )[i]) is LowCache,
    decreases rows.len(),
{
    if rows.len() > 0 {
        lemma_low(rows.drop_last());
    }
}

proof fn lemma_heavy(rows: Seq<(Seq<char>, TokenUsage)>)
    ensures
        forall|i: int|
            0 <= i < heavy_threads(rows).len() ==> (#[trigger] heavy_threads(
                rows,
            )[i]) is HeavyThread,
    decreases rows.len(),
{
    if rows.len() > 0 {
        lemma_heavy(rows.drop_last());
    }
}

proof fn lemma_busy(rows: Seq<(Seq<char>, Bucket)>, total: u64, days: usize)
    ensures
        forall|i: int|
            0 <= i < busy_days(rows, total, days).len() ==> (#[trigger] busy_days(
                rows,
                total,
                days,
            )[i]) is BusyDay,
    decreases rows.len(),
{
    if rows.len() > 0 {
        lemma_busy(rows.drop_last(), total, days);
    }
}

proof fn lemma_in_parts(
    a: Seq<AnomalyView>,
    b: Seq<AnomalyView>,
    c: Seq<AnomalyView>,
    d: Seq<AnomalyView>,
    e: Seq<AnomalyView>,
    x: AnomalyView,
)
    ensures
        (a + b + c + d + e).contains(x) <==> a.contains(x) || b.contains(x) || c.contains(x)
            || d.contains(x) || e.contains(x),
{
    broadcast use vstd::seq_lib::group_seq_properties;

}

/// What is unusual in some calls: auto review where it takes more than a tenth of their input, calls
/// of long context where there are any, each heavy thread, each busy day, and of the threads that
/// read little from the cache those that are told; nothing else.
#[verifier::rlimit(40)]
pub proof fn law_what_is_unusual(
    calls: Seq<CallView>,
    by_day: Map<Seq<char>, Bucket>,
    by_activity: Map<Seq<char>, Bucket>,
    long: u64,
    x: AnomalyView,
)
    ensures
        ({
            let all = anomalies_of(calls, by_day, by_activity, long);
            let threads = rows_of(thread_usage(calls));
            let days = rows_of(by_day);
            let input = input_under(by_activity, "auto_review"@);
            let total = usage_sum(calls).input_tokens;
            &&& x is AutoReview ==> (all.contains(x) <==> x == (AnomalyView::AutoReview {
                input,
                total,
            }) && total > 0 && 10 * input > total)
            &&& x is LongContext ==> (all.contains(x) <==> x == AnomalyView::LongContext(long)
                && long > 0)
            &&& x is HeavyThread ==> (all.contains(x) <==> heavy_threads(threads).contains(x))
            &&& x is BusyDay ==> (all.contains(x) <==> busy_days(
                days,
                input_of_days(days),
                days.len() as usize,
            ).contains(x))
            &&& x is LowCache ==> (all.contains(x) <==> at_most_five(
                low_cache_threads(threads),
            ).contains(x))
        }),
{
    let threads = rows_of(thread_usage(calls));
    let days = rows_of(by_day);
    let input = input_under(by_activity, "auto_review"@);
    let total = usage_sum(calls).input_tokens;
    let a = auto_review_anomaly(input, total);
    let b = long_context_anomaly(long);
    let c = at_most_five(low_cache_threads(threads));
    let d = heavy_threads(threads);
    let e = busy_days(days, input_of_days(days), days.len() as usize);
    lemma_in_parts(a, b, c, d, e, x);
    lemma_low(threads);
    lemma_heavy(threads);
    lemma_busy(days, input_of_days(days), days.len() as usize);
    if total > 0 && 10 * input > total {
        assert(a[0] == AnomalyView::AutoReview { input, total });
    }
    if long > 0 {
        assert(b[0] == AnomalyView::LongContext(long));
    }
    assert forall|i: int| 0 <= i < c.len() implies (#[trigger] c[i]) is LowCache by {
        assert(c[i] == low_cache_threads(threads)[i]);
    }
}

} // verus!
