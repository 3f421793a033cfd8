//! How numbers, times, threads and periods are shown, and what a watcher does.

use vstd::prelude::*;

use crate::aggregate::buckets;
use crate::aggregate::ByThread;
use crate::format::dollars;
use crate::format::grouped;
use crate::format::unit_of;
use crate::format::TokenUnit;
use crate::model::CallView;
use crate::order::is_sorting_of;
use crate::order::Ranked;
use crate::text::decimal_of;
use crate::text::digit;
use crate::text::text_lt;
use crate::text_map::rows_of;
use crate::ui::all_thread_rows;
use crate::ui::are_top_threads;
use crate::ui::cursor_named;
use crate::ui::first_call;
use crate::ui::first_ten;
use crate::ui::is_head;
use crate::ui::period_text;
use crate::ui::thread_label_of;
use crate::ui::thread_row;
use crate::ui::EdgeCursor;
use crate::ui::ThreadRow;
use crate::ui::ThreadRowView;
use crate::util::day_number;
use crate::util::is_date;
use crate::util::padded;
use crate::util::time_text;
use crate::watch::watched;
use crate::watch::WatchAction;
use crate::watch::WatchEvent;
use crate::watch::WatchState;

verus! {

/// The number that digits write down.
pub open spec fn number_of(digits: Seq<char>) -> int
    decreases digits.len(),
{
    if digits.len() == 0 {
        0
    } else {
        10 * number_of(digits.drop_last()) + (digits.last() as int - '0' as int)
    }
}

/// Nothing but decimal digits.
pub open spec fn all_digits(t: Seq<char>) -> bool {
    forall|i: int| 0 <= i < t.len() ==> '0' as int <= (#[trigger] t[i]) as int <= '9' as int
}

/// A number is written in digits that write it down, without a zero at their start.
pub proof fn law_decimal_writes_the_number(n: nat)
    ensures
        number_of(decimal_of(n)) == n,
        all_digits(decimal_of(n)),
        decimal_of(n).len() > 0,
        n > 0 ==> decimal_of(n)[0] != '0',
    decreases n,
{
    reveal_with_fuel(number_of, 2);
    if n >= 10 {
        law_decimal_writes_the_number(n / 10);
        let (init, last) = (decimal_of(n / 10), digit(n % 10));
        assert(decimal_of(n) == init.push(last));
        assert(init.push(last).drop_last() =~= init);
        assert(number_of(init.push(last)) == 10 * number_of(init) + (last as int - '0' as int));
    } else {
        assert(decimal_of(n).drop_last() =~= Seq::<char>::empty());
    }
}

/// How many digits a number has.
pub proof fn law_length_of_a_decimal(n: nat)
    ensures
        decimal_of(n).len() == 1 <==> n < 10,
        decimal_of(n).len() <= 2 <==> n < 100,
        decimal_of(n).len() <= 3 <==> n < 1000,
        decimal_of(n).len() <= 4 <==> n < 10000,
{
    reveal_with_fuel(decimal_of, 6);
}

/// Zeros before a number do not change it, and fill it up to its width.
pub proof fn law_padding_keeps_the_number(n: nat, width: nat)
    ensures
        number_of(padded(n, width)) == n,
        all_digits(padded(n, width)),
        decimal_of(n).len() <= width ==> padded(n, width).len() == width,
        decimal_of(n).len() > width ==> padded(n, width) == decimal_of(n),
{
    law_decimal_writes_the_number(n);
    let digits = decimal_of(n);
    if digits.len() < width {
        let k = (width - digits.len()) as nat;
        lemma_zeros_before(k, digits);
    }
}

proof fn lemma_zeros_before(k: nat, digits: Seq<char>)
    ensures
        number_of(Seq::new(k, |i: int| '0') + digits) == number_of(digits),
    decreases k + digits.len(),
{
    let zeros = Seq::new(k, |i: int| '0');
    let all = zeros + digits;
    if digits.len() > 0 {
        lemma_zeros_before(k, digits.drop_last());
        assert(all.drop_last() =~= zeros + digits.drop_last());
        assert(all.last() == digits.last());
    } else if k > 0 {
        lemma_zeros_before((k - 1) as nat, digits);
        assert(all.drop_last() =~= Seq::new((k - 1) as nat, |i: int| '0') + digits);
        assert(all.last() == '0');
    } else {
        assert(all =~= digits);
    }
}

/// The text of a time has the year, the month, the day, the hour, the minute and the second at their
/// places, with the usual marks between them.
#[verifier::rlimit(40)]
pub proof fn law_time_is_written_part_by_part(y: int, m: int, d: int, second: int)
    requires
        0 <= y < 10000,
        0 <= m < 100,
        0 <= d < 100,
        0 <= second < 86400,
    ensures
        ({
            let t = time_text(y, m, d, second);
            &&& t.len() == 20
            &&& number_of(t.subrange(0, 4)) == y
            &&& t[4] == '-'
            &&& number_of(t.subrange(5, 7)) == m
            &&& t[7] == '-'
            &&& number_of(t.subrange(8, 10)) == d
            &&& t[10] == 'T'
            &&& t[13] == ':'
            &&& t[16] == ':'
            &&& t[19] == 'Z'
            &&& 3600 * number_of(t.subrange(11, 13)) + 60 * number_of(t.subrange(14, 16))
                + number_of(t.subrange(17, 19)) == second
            &&& number_of(t.subrange(14, 16)) < 60
            &&& number_of(t.subrange(17, 19)) < 60
        }),
{
    reveal_strlit("-");
    reveal_strlit("T");
    reveal_strlit(":");
    reveal_strlit("Z");
    let (h, min, s) = (second / 3600, second / 60 % 60, second % 60);
    law_padding_keeps_the_number(y as nat, 4);
    law_padding_keeps_the_number(m as nat, 2);
    law_padding_keeps_the_number(d as nat, 2);
    law_padding_keeps_the_number(h as nat, 2);
    law_padding_keeps_the_number(min as nat, 2);
    law_padding_keeps_the_number(s as nat, 2);
    law_length_of_a_decimal(y as nat);
    law_length_of_a_decimal(m as nat);
    law_length_of_a_decimal(d as nat);
    law_length_of_a_decimal(h as nat);
    law_length_of_a_decimal(min as nat);
    law_length_of_a_decimal(s as nat);
    let t = time_text(y, m, d, second);
    assert(t.subrange(0, 4) =~= padded(y as nat, 4));
    assert(t.subrange(5, 7) =~= padded(m as nat, 2));
    assert(t.subrange(8, 10) =~= padded(d as nat, 2));
    assert(t.subrange(11, 13) =~= padded(h as nat, 2));
    assert(t.subrange(14, 16) =~= padded(min as nat, 2));
    assert(t.subrange(17, 19) =~= padded(s as nat, 2));
}

/// Days are numbered one by one: the next day of a month, the first day of the next month and the
/// first day of the next year each follow the day before, and the first day of 1970 is day zero. A
/// month has the days of the Gregorian calendar.
pub proof fn law_days_follow_each_other(y: int, m: int, d: int)
    requires
        y >= 1,
        1 <= m <= 12,
        1 <= d,
    ensures
        day_number(1970, 1, 1) == 0,
        day_number(y, m, d + 1) == day_number(y, m, d) + 1,
        ({
            let leap = y % 400 == 0 || (y % 4 == 0 && y % 100 != 0);
            let last = if m == 2 {
                if leap {
                    29int
                } else {
                    28
                }
            } else if m == 4 || m == 6 || m == 9 || m == 11 {
                30
            } else {
                31
            };
            &&& is_date(y, m, d) <==> d <= last
            &&& m < 12 ==> day_number(y, m + 1, 1) == day_number(y, m, last) + 1
            &&& day_number(y + 1, 1, 1) == day_number(y, 12, 31) + 1
        }),
{
    reveal_with_fuel(crate::util::days_before_month, 13);
    let z = y - 1;
    assert(y / 4 - z / 4 == if y % 4 == 0 {
        1int
    } else {
        0
    });
    assert(y / 100 - z / 100 == if y % 100 == 0 {
        1int
    } else {
        0
    });
    assert(y / 400 - z / 400 == if y % 400 == 0 {
        1int
    } else {
        0
    });
    assert(y % 400 == 0 ==> y % 100 == 0);
    assert(y % 100 == 0 ==> y % 4 == 0);
}

/// Grouping digits only puts commas between them: without the commas the digits are there as before,
/// and a comma stands before every three digits from the end, but never at the start.
pub proof fn law_grouping_only_puts_commas(digits: Seq<char>)
    requires
        !digits.contains(','),
    ensures
        grouped(digits).filter(|c: char| c != ',') == digits,
        digits.len() <= 3 ==> grouped(digits) == digits,
        digits.len() > 0 ==> grouped(digits).len() == digits.len() + (digits.len() - 1) / 3,
        forall|p: int|
            0 <= p < grouped(digits).len() ==> (#[trigger] grouped(digits)[p] == ',' <==> (
            grouped(digits).len() - 1 - p) % 4 == 3),
    decreases digits.len(),
{
    reveal_strlit(",");
    let keep = |c: char| c != ',';
    if digits.len() <= 3 {
        lemma_nothing_filtered(digits);
        assert forall|p: int| 0 <= p < digits.len() implies #[trigger] digits[p] != ',' by {
            assert(digits.contains(digits[p]));
        }
    } else {
        let n = digits.len() - 3;
        let (a, b) = (digits.take(n), digits.skip(n));
        assert(!a.contains(',')) by {
            if a.contains(',') {
                let i = choose|i: int| 0 <= i < a.len() && a[i] == ',';
                assert(digits[i] == ',');
            }
        }
        assert(!b.contains(',')) by {
            if b.contains(',') {
                let i = choose|i: int| 0 <= i < b.len() && b[i] == ',';
                assert(digits[n + i] == ',');
            }
        }
        law_grouping_only_puts_commas(a);
        lemma_nothing_filtered(b);
        let g = grouped(a);
        assert(grouped(digits) =~= g + ","@ + b);
        Seq::filter_distributes_over_add(g + ","@, b, keep);
        Seq::filter_distributes_over_add(g, ","@, keep);
        assert(","@.filter(keep) =~= Seq::<char>::empty()) by {
            reveal_with_fuel(Seq::filter, 2);
            assert(","@.drop_last() =~= Seq::<char>::empty());
        }
        assert(a + Seq::<char>::empty() + b =~= digits);
        let all = grouped(digits);
        assert forall|p: int| 0 <= p < all.len() implies (#[trigger] all[p] == ',' <==> (all.len()
            - 1 - p) % 4 == 3) by {
            if p < g.len() {
                assert(all[p] == g[p]);
                assert(all.len() - 1 - p == (g.len() - 1 - p) + 4);
            } else if p == g.len() {
                assert(all[p] == ',');
            } else {
                assert(all[p] == b[p - g.len() - 1]);
                assert(b.contains(all[p]));
            }
        }
    }
}

proof fn lemma_nothing_filtered(s: Seq<char>)
    requires
        !s.contains(','),
    ensures
        s.filter(|c: char| c != ',') == s,
    decreases s.len(),
{
    reveal(Seq::filter);
    if s.len() > 0 {
        let init = s.drop_last();
        assert(s.contains(s.last()));
        assert(!init.contains(',')) by {
            if init.contains(',') {
                let i = choose|i: int| 0 <= i < init.len() && init[i] == ',';
                assert(s[i] == ',');
            }
        }
        lemma_nothing_filtered(init);
        assert(init.push(s.last()) =~= s);
    }
}

/// A number of tokens is shown in the largest unit that it reaches.
pub proof fn law_unit_is_the_largest_reached(n: u64)
    ensures
        unit_of(n) == TokenUnit::Billion <==> n >= 1_000_000_000,
        unit_of(n) == TokenUnit::Million <==> 1_000_000 <= n < 1_000_000_000,
        unit_of(n) == TokenUnit::Thousand <==> 1_000 <= n < 1_000_000,
        unit_of(n) == TokenUnit::One <==> n < 1_000,
{
}

/// An amount shows its sign where it is negative, its dollars in groups, and its cents in two
/// digits.
pub proof fn law_amount_shows_dollars_and_cents(negative: bool, cents: u64)
    ensures
        ({
            let t = dollars(negative, cents);
            let n = t.len() as int;
            let sign = if negative {
                seq!['-', '$']
            } else {
                seq!['$']
            };
            &&& n >= 3
            &&& t.take(n - 3) == sign + grouped(decimal_of((cents / 100) as nat))
            &&& t[n - 3] == '.'
            &&& all_digits(t.skip(n - 2))
            &&& number_of(t.skip(n - 2)) == cents % 100
        }),
{
    reveal_strlit("-");
    reveal_strlit("");
    reveal_strlit("$");
    reveal_strlit(".");
    reveal_strlit(".0");
    let rest = (cents % 100) as nat;
    let digits = decimal_of(rest);
    law_decimal_writes_the_number(rest);
    law_length_of_a_decimal(rest);
    let whole = grouped(decimal_of((cents / 100) as nat));
    let t = dollars(negative, cents);
    let n = t.len() as int;
    let sign = if negative {
        seq!['-', '$']
    } else {
        seq!['$']
    };
    if rest < 10 {
        lemma_zeros_before(1, digits);
        assert(t.skip(n - 2) =~= Seq::new(1, |i: int| '0') + digits);
        assert(t =~= sign + whole + seq!['.', '0'] + digits);
    } else {
        assert(t.skip(n - 2) =~= digits);
        assert(t =~= sign + whole + seq!['.'] + digits);
    }
    assert(t.take(n - 3) =~= sign + whole);
}

/// The first call of a thread is the first in the list with that thread; there is none where no call
/// has it.
pub proof fn law_first_call_of_a_thread(calls: Seq<CallView>, thread: Seq<char>, i: int)
    requires
        0 <= i < calls.len(),
    ensures
        calls[i].thread_id == Some(thread) && (forall|j: int|
            0 <= j < i ==> (#[trigger] calls[j]).thread_id != Some(thread)) ==> first_call(
            calls,
            thread,
        ) == Some(calls[i]),
        (forall|j: int| 0 <= j < calls.len() ==> (#[trigger] calls[j]).thread_id != Some(thread))
            ==> first_call(calls, thread) is None,
    decreases calls.len(),
{
    let rest = calls.drop_first();
    assert forall|j: int| 0 <= j < rest.len() implies rest[j] == #[trigger] calls[j + 1] by {}
    if i > 0 {
        law_first_call_of_a_thread(rest, thread, i - 1);
        if calls[i].thread_id == Some(thread) && (forall|j: int|
            0 <= j < i ==> (#[trigger] calls[j]).thread_id != Some(thread)) {
            assert(calls[0].thread_id != Some(thread));
            assert forall|j: int| 0 <= j < i - 1 implies (#[trigger] rest[j]).thread_id != Some(
                thread,
            ) by {
                assert(calls[j + 1].thread_id != Some(thread));
            }
        }
    } else if rest.len() > 0 {
        law_first_call_of_a_thread(rest, thread, 0);
    }
    if forall|j: int| 0 <= j < calls.len() ==> (#[trigger] calls[j]).thread_id != Some(thread) {
        assert(calls[0].thread_id != Some(thread));
        assert forall|j: int| 0 <= j < rest.len() implies (#[trigger] rest[j]).thread_id != Some(
            thread,
        ) by {
            assert(calls[j + 1].thread_id != Some(thread));
        }
    }
}

/// The row of a thread has its counts, and the title, the project and the activity of its first
/// call; what that call does not tell is empty, and its activity unknown.
pub proof fn law_row_of_a_thread(
    calls: Seq<CallView>,
    id: Seq<char>,
    b: crate::aggregate::Bucket,
    dir: Seq<char>,
    name: Seq<char>,
)
    requires
        name.len() > 0,
        !name.contains('/'),
    ensures
        ({
            let r = thread_row(calls, id, b);
            let known = first_call(calls, id) is Some;
            let c = first_call(calls, id)->0;
            &&& r.thread_id == id
            &&& r.bucket == b
            &&& known && c.thread_title is Some ==> r.title == c.thread_title->0
            &&& !known || c.thread_title is None ==> r.title.len() == 0
            &&& known && c.project_path == Some(dir.push('/') + name) ==> r.project == name
            &&& !known || c.project_path is None ==> r.project.len() == 0
            &&& known && c.activity is Some ==> r.activity == c.activity->0
            &&& !known || c.activity is None ==> r.activity == "unknown"@
        }),
{
    crate::breakdown_laws::law_project_is_the_last_part(dir, name);
}

/// Threads with more input come first; of those with the same input the one whose name comes first.
pub proof fn law_threads_are_ordered_by_input(a: ThreadRowView, b: ThreadRowView)
    ensures
        a.bucket.usage.input_tokens > b.bucket.usage.input_tokens ==> ThreadRow::before(a, b)
            && !ThreadRow::before(b, a),
        a.bucket.usage.input_tokens == b.bucket.usage.input_tokens ==> (ThreadRow::before(a, b)
            <==> text_lt(a.thread_id, b.thread_id)),
{
}

/// The first elements are told in their order, `limit` of them or all.
pub proof fn law_head_is_the_first_elements<T>(head: Seq<T>, all: Seq<T>, limit: nat, i: int)
    requires
        is_head(head, all, limit),
    ensures
        head.len() == if all.len() < limit {
            all.len()
        } else {
            limit
        },
        0 <= i < head.len() ==> head[i] == all[i],
{
}

/// The first messages are told in their order, ten of them or all.
pub proof fn law_first_ten_messages(errors: Seq<Seq<char>>, i: int)
    ensures
        errors.len() <= 10 ==> first_ten(errors) == errors,
        errors.len() > 10 ==> first_ten(errors).len() == 10,
        0 <= i < errors.len() && i < 10 ==> first_ten(errors)[i] == errors[i],
{
}

/// A thread is named by its id; a title follows it, up to forty-eight letters.
pub proof fn law_label_starts_with_the_id(id: Seq<char>, title: Seq<char>)
    ensures
        title.len() == 0 ==> thread_label_of(id, title) == id,
        0 < title.len() <= 48 ==> thread_label_of(id, title) == id + " — "@ + title,
        title.len() > 48 ==> thread_label_of(id, title) == id + " — "@ + title.take(48),
{
}

/// A period names the bounds that it has.
pub proof fn law_period_names_its_bounds(from: Seq<char>, to: Seq<char>)
    ensures
        period_text(Some(from), Some(to)) == from + " → "@ + to,
        period_text(Some(from), None) == "depuis "@ + from,
        period_text(None, Some(to)) == "jusqu'à "@ + to,
        period_text(None, None) == "tout l'historique"@,
{
}

/// A cursor has its own name; any other name, or none, is the default one.
pub proof fn law_cursor_of_a_name(name: Option<Seq<char>>)
    ensures
        cursor_named(name) == EdgeCursor::EwResize <==> name == Some("ew-resize"@),
        cursor_named(name) == EdgeCursor::NsResize <==> name == Some("ns-resize"@),
        cursor_named(name) == EdgeCursor::NwseResize <==> name == Some("nwse-resize"@),
        cursor_named(name) == EdgeCursor::NeswResize <==> name == Some("nesw-resize"@),
{
    reveal_strlit("ew-resize");
    reveal_strlit("ns-resize");
    reveal_strlit("nwse-resize");
    reveal_strlit("nesw-resize");
    assert("ew-resize"@[0] != "ns-resize"@[0]);
    assert("nwse-resize"@[1] != "nesw-resize"@[1]);
    assert("ew-resize"@.len() != "nwse-resize"@.len());
    assert("ew-resize"@.len() != "nesw-resize"@.len());
    assert("ns-resize"@.len() != "nwse-resize"@.len());
    assert("ns-resize"@.len() != "nesw-resize"@.len());
}

/// A watcher imports if and only if something has changed and no more changes are coming in; it
/// stops if and only if nothing more will be told and nothing is left to import; a change is
/// remembered until then.
pub proof fn law_watcher_imports_after_changes(s: WatchState, e: WatchEvent)
    ensures
        watched(s, e).1 == WatchAction::Import <==> s.changed && e != WatchEvent::Change,
        watched(s, e).1 == WatchAction::Stop <==> !s.changed && e == WatchEvent::Closed,
        watched(s, e).0.changed <==> e == WatchEvent::Change,
{
}

/// The listed threads are as many as were asked for, or all; they stand in order of their input, each
/// with its own row, and no thread that is left out has more input than one that is listed.
pub proof fn law_top_threads_have_the_most_input(
    threads: Seq<ThreadRowView>,
    rules: Seq<crate::pricing::RuleView>,
    calls: Seq<CallView>,
    limit: nat,
    i: int,
    j: int,
    other: ThreadRowView,
)
    requires
        are_top_threads(threads, rules, calls, limit),
        0 <= i < threads.len(),
    ensures
        ({
            let all = all_thread_rows(calls, rows_of(buckets::<ByThread>(rules, calls)));
            &&& threads.len() == if all.len() < limit {
                all.len()
            } else {
                limit
            }
            &&& all.contains(threads[i])
            &&& i < j < threads.len() ==> threads[i].bucket.usage.input_tokens
                >= threads[j].bucket.usage.input_tokens
            &&& all.contains(other) && !threads.contains(other)
                ==> threads[i].bucket.usage.input_tokens >= other.bucket.usage.input_tokens
        }),
{
    let all = all_thread_rows(calls, rows_of(buckets::<ByThread>(rules, calls)));
    let sorted = choose|sorted: Seq<ThreadRowView>| #[trigger]
        is_sorting_of::<ThreadRow>(sorted, all) && is_head(threads, sorted, limit);
    sorted.to_multiset_ensures();
    all.to_multiset_ensures();
    assert(sorted.to_multiset().len() == all.to_multiset().len());
    assert(threads[i] == sorted[i]);
    assert(sorted.contains(threads[i]));
    assert(sorted.to_multiset().count(threads[i]) > 0);
    assert(all.contains(threads[i]));
    if i < j < threads.len() {
        assert(threads[j] == sorted[j]);
        assert(!ThreadRow::before(sorted[j], sorted[i]));
    }
    if all.contains(other) && !threads.contains(other) {
        assert(all.to_multiset().count(other) > 0);
        assert(sorted.contains(other));
        let k = choose|k: int| 0 <= k < sorted.len() && sorted[k] == other;
        if k < threads.len() {
            assert(threads[k] == other);
        }
        assert(!ThreadRow::before(sorted[k], sorted[i]));
    }
}

/// The row of each thread is made of its name and its bucket, in the order of the rows.
pub proof fn law_each_thread_has_a_row(
    calls: Seq<CallView>,
    rows: Seq<(Seq<char>, crate::aggregate::Bucket)>,
    i: int,
)
    requires
        0 <= i < rows.len(),
    ensures
        all_thread_rows(calls, rows).len() == rows.len(),
        all_thread_rows(calls, rows)[i] == thread_row(calls, rows[i].0, rows[i].1),
{
}

} // verus!
