//! Where a call is counted, one more call at a time.

use vstd::prelude::*;
use vstd::utf8::*;

use crate::aggregate::bucket_sum;
use crate::aggregate::buckets;
use crate::aggregate::calls_with_confidence;
use crate::aggregate::group;
use crate::aggregate::no_calls;
use crate::aggregate::thread_usage;
use crate::aggregate::Bucket;
use crate::aggregate::ByActivity;
use crate::aggregate::ByDay;
use crate::aggregate::ByKnownThread;
use crate::aggregate::ByModel;
use crate::aggregate::ByProject;
use crate::aggregate::ByThread;
use crate::aggregate::Grouping;
use crate::model::day_of;
use crate::model::CallView;
use crate::model::ModelConfidence;
use crate::pricing::cost_of;
use crate::pricing::RuleView;
use crate::text::last_part;

verus! {

/// The bucket under a key; one without calls where there is none.
pub open spec fn bucket_under(table: Map<Seq<char>, Bucket>, k: Seq<char>) -> Bucket {
    if table.contains_key(k) {
        table[k]
    } else {
        Bucket {
            calls: 0,
            usage: crate::model::TokenUsage {
                input_tokens: 0,
                cached_input_tokens: 0,
                cache_write_input_tokens: 0,
                output_tokens: 0,
                reasoning_output_tokens: 0,
                total_tokens: 0,
            },
            long_context_calls: 0,
            unknown_model_tokens: 0,
            unknown_model_calls: 0,
        }
    }
}

/// One bucket holds one call more than another, with all its tokens, modulo 2^64.
pub open spec fn gains_call(a: Bucket, b: Bucket, rules: Seq<RuleView>, c: CallView) -> bool {
    let known = cost_of(rules, c).model_known;
    &&& b.calls == a.calls.wrapping_add(1)
    &&& b.usage.input_tokens == a.usage.input_tokens.wrapping_add(c.usage.input_tokens)
    &&& b.usage.cached_input_tokens == a.usage.cached_input_tokens.wrapping_add(
        c.usage.cached_input_tokens,
    )
    &&& b.usage.cache_write_input_tokens == a.usage.cache_write_input_tokens.wrapping_add(
        c.usage.cache_write_input_tokens,
    )
    &&& b.usage.output_tokens == a.usage.output_tokens.wrapping_add(c.usage.output_tokens)
    &&& b.usage.reasoning_output_tokens == a.usage.reasoning_output_tokens.wrapping_add(
        c.usage.reasoning_output_tokens,
    )
    &&& b.usage.total_tokens == a.usage.total_tokens.wrapping_add(c.usage.total_tokens)
    &&& known ==> b.unknown_model_calls == a.unknown_model_calls && b.unknown_model_tokens
        == a.unknown_model_tokens
    &&& !known ==> b.unknown_model_calls == a.unknown_model_calls.wrapping_add(1)
        && b.unknown_model_tokens == a.unknown_model_tokens.wrapping_add(c.usage.total_tokens)
    &&& cost_of(rules, c).long_context ==> b.long_context_calls
        == a.long_context_calls.wrapping_add(1)
    &&& !cost_of(rules, c).long_context ==> b.long_context_calls == a.long_context_calls
}

/// A table counts one call more, under this key and under no other.
pub open spec fn counted_under(
    before: Map<Seq<char>, Bucket>,
    after: Map<Seq<char>, Bucket>,
    rules: Seq<RuleView>,
    c: CallView,
    k: Seq<char>,
) -> bool {
    &&& after.contains_key(k)
    &&& gains_call(bucket_under(before, k), bucket_under(after, k), rules, c)
    &&& forall|other: Seq<char>|
        other != k ==> (#[trigger] after.contains_key(other) <==> before.contains_key(other))
    &&& forall|other: Seq<char>|
        other != k && before.contains_key(other) ==> #[trigger] after[other] == before[other]
}

/// One more call adds itself to a bucket.
pub proof fn law_bucket_gains_the_call(rules: Seq<RuleView>, calls: Seq<CallView>, c: CallView)
    ensures
        gains_call(bucket_sum(rules, calls), bucket_sum(rules, calls.push(c)), rules, c),
        bucket_sum(rules, Seq::<CallView>::empty()) == bucket_under(Map::empty(), Seq::empty()),
{
    assert(calls.push(c).drop_last() =~= calls);
    lemma_long_is_known(rules, c);
}

proof fn lemma_long_is_known(rules: Seq<RuleView>, c: CallView)
    ensures
        cost_of(rules, c).long_context ==> cost_of(rules, c).model_known,
{
}

/// A call is counted in the bucket of its key, and in no other.
proof fn lemma_counted_under_key<G: Grouping>(
    rules: Seq<RuleView>,
    calls: Seq<CallView>,
    c: CallView,
    k: Seq<char>,
)
    requires
        G::spec_key(c) == Some(k),
    ensures
        counted_under(
            buckets::<G>(rules, calls),
            buckets::<G>(rules, calls.push(c)),
            rules,
            c,
            k,
        ),
{
    let all = calls.push(c);
    assert(all.drop_last() =~= calls);
    let (before, after) = (buckets::<G>(rules, calls), buckets::<G>(rules, all));
    let (x, y) = (group::<G>(calls, k), group::<G>(all, k));
    assert(y == x.push(c));
    law_bucket_gains_the_call(rules, x, c);
    if x.len() == 0 {
        assert(x =~= Seq::empty());
        assert(bucket_sum(rules, x) == no_calls());
    }
    assert(bucket_under(before, k) == bucket_sum(rules, x));
    assert(bucket_under(after, k) == bucket_sum(rules, y));
    assert forall|other: Seq<char>| other != k implies group::<G>(all, other) == #[trigger] group::<
        G,
    >(calls, other) by {}
    assert forall|other: Seq<char>| other != k implies (#[trigger] after.contains_key(other)
        <==> before.contains_key(other)) by {
        assert(group::<G>(all, other) == group::<G>(calls, other));
    }
    assert forall|other: Seq<char>| other != k && before.contains_key(other) implies
        #[trigger] after[other] == before[other] by {
        assert(group::<G>(all, other) == group::<G>(calls, other));
    }
}

/// A call whose activity is known is counted under that activity, whatever its model. One whose
/// activity is not known counts as auto review where its model is that of auto review, and as
/// unknown otherwise.
pub proof fn law_known_activity_is_the_key(rules: Seq<RuleView>, calls: Seq<CallView>, c: CallView)
    ensures
        ({
            let before = buckets::<ByActivity>(rules, calls);
            let after = buckets::<ByActivity>(rules, calls.push(c));
            &&& c.activity is Some ==> counted_under(before, after, rules, c, c.activity->0)
            &&& c.activity is None && c.model_slug == Some("codex-auto-review"@) ==> counted_under(
                before,
                after,
                rules,
                c,
                "auto_review"@,
            )
            &&& c.activity is None && c.model_slug != Some("codex-auto-review"@) ==> counted_under(
                before,
                after,
                rules,
                c,
                "unknown"@,
            )
        }),
{
    lemma_counted_under_key::<ByActivity>(rules, calls, c, ByActivity::spec_key(c)->0);
}

/// A call is counted under its model; one without a model under a name that says so.
pub proof fn law_model_is_the_key(rules: Seq<RuleView>, calls: Seq<CallView>, c: CallView)
    ensures
        ({
            let before = buckets::<ByModel>(rules, calls);
            let after = buckets::<ByModel>(rules, calls.push(c));
            &&& c.model_slug is Some ==> counted_under(before, after, rules, c, c.model_slug->0)
            &&& c.model_slug is None ==> counted_under(before, after, rules, c, "<unknown>"@)
        }),
{
    lemma_counted_under_key::<ByModel>(rules, calls, c, ByModel::spec_key(c)->0);
}

/// A call is counted under its thread; one without a thread under a name that says so.
pub proof fn law_thread_is_the_key(rules: Seq<RuleView>, calls: Seq<CallView>, c: CallView)
    ensures
        ({
            let before = buckets::<ByThread>(rules, calls);
            let after = buckets::<ByThread>(rules, calls.push(c));
            &&& c.thread_id is Some ==> counted_under(before, after, rules, c, c.thread_id->0)
            &&& c.thread_id is None ==> counted_under(before, after, rules, c, "<unknown>"@)
        }),
{
    lemma_counted_under_key::<ByThread>(rules, calls, c, ByThread::spec_key(c)->0);
}

/// A call of a known thread is counted under it; other calls are not counted at all where only
/// known threads are.
pub proof fn law_only_known_threads_count(rules: Seq<RuleView>, calls: Seq<CallView>, c: CallView)
    ensures
        ({
            let before = buckets::<ByKnownThread>(rules, calls);
            let after = buckets::<ByKnownThread>(rules, calls.push(c));
            &&& c.thread_id is Some ==> counted_under(before, after, rules, c, c.thread_id->0)
            &&& c.thread_id is None ==> after == before
        }),
{
    if c.thread_id is Some {
        lemma_counted_under_key::<ByKnownThread>(rules, calls, c, c.thread_id->0);
    } else {
        let all = calls.push(c);
        assert(all.drop_last() =~= calls);
        assert forall|k: Seq<char>| group::<ByKnownThread>(all, k) == #[trigger] group::<
            ByKnownThread,
        >(calls, k) by {}
        assert(buckets::<ByKnownThread>(rules, all) =~= buckets::<ByKnownThread>(rules, calls));
    }
}

/// A text of ASCII letters that starts like a date has its first ten letters as its day; one that
/// does not has none.
pub proof fn law_day_is_the_date_of_the_time(t: Seq<char>)
    requires
        is_ascii_chars(t),
    ensures
        t.len() >= 10 && t[4] == '-' && t[7] == '-' ==> day_of(Some(t)) == t.take(10),
        !(t.len() >= 10 && t[4] == '-' && t[7] == '-') ==> day_of(Some(t)) == "unknown"@,
        day_of(None) == "unknown"@,
{
    let bytes = encode_utf8(t);
    is_ascii_chars_encode_utf8(t);
    if t.len() >= 10 {
        assert(t[4] as u8 == bytes[4] && t[7] as u8 == bytes[7]);
        is_ascii_chars_nat_bound(t);
        assert((t[4] as nat) < 128 && (t[7] as nat) < 128);
        assert('-' as u8 == 0x2d);
        assert((t[4] == '-') == (bytes[4] == 0x2d));
        assert((t[7] == '-') == (bytes[7] == 0x2d));
        let (a, b) = (t.take(10), t.skip(10));
        assert(t =~= a + b);
        is_ascii_chars_concat(t, a, b);
        is_ascii_chars_encode_utf8(a);
        assert forall|i: int| 0 <= i < 10 implies bytes.subrange(0, 10)[i] == #[trigger] encode_utf8(
            a,
        )[i] by {
            assert(a[i] == t[i]);
            assert(t[i] as u8 == bytes[i]);
            assert(a[i] as u8 == encode_utf8(a)[i]);
        }
        assert(bytes.subrange(0, 10) =~= encode_utf8(a));
        encode_utf8_decode_utf8(a);
        encode_utf8_valid_utf8(t);
        if t.len() > 10 {
            assert(t[10] as u8 == bytes[10]);
            assert((t[10] as nat) < 128);
            is_char_boundary_iff_not_is_continuation_byte(bytes, 10);
            let x = bytes[10];
            assert(x < 128 ==> !is_continuation_byte(x)) by (bit_vector);
        } else {
            is_char_boundary_start_end_of_seq(bytes);
        }
    }
}

/// A call is counted under the day of its time.
pub proof fn law_day_is_the_key(rules: Seq<RuleView>, calls: Seq<CallView>, c: CallView)
    ensures
        ({
            let before = buckets::<ByDay>(rules, calls);
            let after = buckets::<ByDay>(rules, calls.push(c));
            &&& counted_under(before, after, rules, c, day_of(c.timestamp_utc))
            &&& c.timestamp_utc is None ==> counted_under(before, after, rules, c, "unknown"@)
        }),
{
    lemma_counted_under_key::<ByDay>(rules, calls, c, day_of(c.timestamp_utc));
}

/// The name behind the last slash of a path starts there.
pub proof fn lemma_name_start(dir: Seq<char>, name: Seq<char>)
    requires
        !name.contains('/'),
    ensures
        crate::text::name_start(dir.push('/') + name) == dir.len() + 1,
    decreases name.len(),
{
    let path = dir.push('/') + name;
    if name.len() == 0 {
        assert(path =~= dir.push('/'));
    } else {
        assert(name.contains(name.last()));
        assert(path.last() == name.last());
        let init = name.drop_last();
        assert(path.drop_last() =~= dir.push('/') + init);
        assert(!init.contains('/')) by {
            if init.contains('/') {
                let i = choose|i: int| 0 <= i < init.len() && init[i] == '/';
                assert(name[i] == '/');
            }
        }
        lemma_name_start(dir, init);
    }
}

/// The project of a path is the part behind its last slash; a slash at its end does not count.
pub proof fn law_project_is_the_last_part(dir: Seq<char>, name: Seq<char>)
    requires
        name.len() > 0,
        !name.contains('/'),
    ensures
        last_part(dir.push('/') + name) == name,
        last_part((dir.push('/') + name).push('/')) == name,
{
    let path = dir.push('/') + name;
    assert(name.contains(name.last()));
    assert(path.last() == name.last());
    lemma_name_start(dir, name);
    assert(path.take(path.len() as int) =~= path);
    assert(path.subrange(dir.len() as int + 1, path.len() as int) =~= name);
    let more = path.push('/');
    assert(more.drop_last() =~= path);
    reveal_with_fuel(crate::text::name_end, 3);
    assert(more.take(path.len() as int) =~= path);
    assert(more.subrange(dir.len() as int + 1, path.len() as int) =~= name);
}

/// A call is counted under the last part of the path of its project; one without a project under a
/// name that says so.
pub proof fn law_project_is_the_key(
    rules: Seq<RuleView>,
    calls: Seq<CallView>,
    c: CallView,
    dir: Seq<char>,
    name: Seq<char>,
)
    requires
        name.len() > 0,
        !name.contains('/'),
        c.project_path == Some(dir.push('/') + name) || c.project_path is None,
    ensures
        ({
            let before = buckets::<ByProject>(rules, calls);
            let after = buckets::<ByProject>(rules, calls.push(c));
            &&& c.project_path is Some ==> counted_under(before, after, rules, c, name)
            &&& c.project_path is None ==> counted_under(before, after, rules, c, "<unknown>"@)
        }),
{
    law_project_is_the_last_part(dir, name);
    lemma_counted_under_key::<ByProject>(rules, calls, c, ByProject::spec_key(c)->0);
}

/// One more call adds to the calls with its confidence and to no others.
pub proof fn law_each_call_counts_with_its_confidence(
    calls: Seq<CallView>,
    c: CallView,
    m: ModelConfidence,
)
    ensures
        calls_with_confidence(Seq::<CallView>::empty(), m) == 0,
        c.model_confidence == m ==> calls_with_confidence(calls.push(c), m)
            == calls_with_confidence(calls, m) + 1,
        c.model_confidence != m ==> calls_with_confidence(calls.push(c), m)
            == calls_with_confidence(calls, m),
{
    assert(calls.push(c).drop_last() =~= calls);
}

/// One more call adds its usage to its thread and to no other.
pub proof fn law_thread_usage_gains_the_call(calls: Seq<CallView>, c: CallView, k: Seq<char>)
    ensures
        ({
            let (before, after) = (thread_usage(calls), thread_usage(calls.push(c)));
            &&& c.thread_id != Some(k) ==> (after.contains_key(k) <==> before.contains_key(k))
            &&& c.thread_id != Some(k) && before.contains_key(k) ==> after[k] == before[k]
            &&& c.thread_id == Some(k) ==> after.contains_key(k)
            &&& c.thread_id == Some(k) && !before.contains_key(k) ==> after[k].input_tokens
                == c.usage.input_tokens && after[k].cached_input_tokens
                == c.usage.cached_input_tokens
            &&& c.thread_id == Some(k) && before.contains_key(k) ==> after[k].input_tokens
                == before[k].input_tokens.wrapping_add(c.usage.input_tokens)
                && after[k].cached_input_tokens == before[k].cached_input_tokens.wrapping_add(
                c.usage.cached_input_tokens,
            )
        }),
{
    let all = calls.push(c);
    assert(all.drop_last() =~= calls);
    let (x, y) = (group::<ByKnownThread>(calls, k), group::<ByKnownThread>(all, k));
    if c.thread_id == Some(k) {
        assert(y == x.push(c));
        assert(y.drop_last() =~= x);
        if x.len() == 0 {
            assert(crate::model::usage_sum(x) == crate::model::no_usage());
        }
    } else {
        assert(y == x);
    }
}

proof fn lemma_encode_joined(a: Seq<char>, b: Seq<char>)
    ensures
        encode_utf8(a + b) == encode_utf8(a) + encode_utf8(b),
    decreases a.len(),
{
    if a.len() == 0 {
        assert(a + b =~= b);
        assert(encode_utf8(a) + encode_utf8(b) =~= encode_utf8(b));
    } else {
        lemma_encode_joined(a.drop_first(), b);
        assert((a + b).drop_first() =~= a.drop_first() + b);
        assert((a + b)[0] == a[0]);
        assert(encode_utf8(a + b) =~= encode_utf8(a) + encode_utf8(b));
    }
}

/// A time that starts with a date in ASCII letters has that date as its day, whatever follows.
pub proof fn law_day_is_the_date_that_a_time_starts_with(date: Seq<char>, rest: Seq<char>)
    requires
        is_ascii_chars(date),
        date.len() == 10,
        date[4] == '-',
        date[7] == '-',
    ensures
        day_of(Some(date + rest)) == date,
{
    let t = date + rest;
    let bytes = encode_utf8(t);
    lemma_encode_joined(date, rest);
    is_ascii_chars_encode_utf8(date);
    encode_utf8_valid_utf8(t);
    assert(bytes.subrange(0, 10) =~= encode_utf8(date));
    encode_utf8_decode_utf8(date);
    assert('-' as u8 == 0x2d);
    assert(date[4] as u8 == encode_utf8(date)[4] && date[7] as u8 == encode_utf8(date)[7]);
    assert(bytes[4] == encode_utf8(date)[4] && bytes[7] == encode_utf8(date)[7]);
    if rest.len() > 0 {
        encode_utf8_first_scalar(rest);
        assert(bytes[10] == encode_utf8(rest)[0]);
        is_char_boundary_iff_not_is_continuation_byte(bytes, 10);
    } else {
        assert(encode_utf8(rest) =~= Seq::<u8>::empty());
        is_char_boundary_start_end_of_seq(bytes);
    }
}

proof fn lemma_name_end(path: Seq<char>, slashes: Seq<char>)
    requires
        path.len() == 0 || path.last() != '/',
        forall|i: int| 0 <= i < slashes.len() ==> (#[trigger] slashes[i]) == '/',
    ensures
        crate::text::name_end(path + slashes) == path.len(),
    decreases slashes.len(),
{
    let all = path + slashes;
    if slashes.len() == 0 {
        assert(all =~= path);
    } else {
        let init = slashes.drop_last();
        assert forall|i: int| 0 <= i < init.len() implies (#[trigger] init[i]) == '/' by {
            assert(init[i] == slashes[i]);
        }
        lemma_name_end(path, init);
        assert(all.last() == slashes[slashes.len() - 1]);
        assert(all.drop_last() =~= path + init);
    }
}

proof fn lemma_no_slash(name: Seq<char>)
    requires
        !name.contains('/'),
    ensures
        crate::text::name_start(name) == 0,
    decreases name.len(),
{
    if name.len() > 0 {
        assert(name.contains(name.last()));
        let init = name.drop_last();
        assert(!init.contains('/')) by {
            if init.contains('/') {
                let i = choose|i: int| 0 <= i < init.len() && init[i] == '/';
                assert(name[i] == '/');
            }
        }
        lemma_no_slash(init);
    }
}

/// The last part of a path does not depend on the slashes at its end, nor does it need a directory
/// before it; nothing but slashes is told as it is.
pub proof fn law_slashes_at_the_end_do_not_count(
    dir: Seq<char>,
    name: Seq<char>,
    slashes: Seq<char>,
)
    requires
        name.len() > 0,
        !name.contains('/'),
        forall|i: int| 0 <= i < slashes.len() ==> (#[trigger] slashes[i]) == '/',
    ensures
        last_part(dir.push('/') + name + slashes) == name,
        last_part(name + slashes) == name,
        last_part(slashes) == slashes,
{
    assert(name.contains(name.last()));
    let path = dir.push('/') + name;
    assert(path.last() == name.last());
    lemma_name_end(path, slashes);
    lemma_name_start(dir, name);
    assert((path + slashes).take(path.len() as int) =~= path);
    assert((path + slashes).subrange(dir.len() as int + 1, path.len() as int) =~= name);
    lemma_name_end(name, slashes);
    lemma_no_slash(name);
    assert((name + slashes).take(name.len() as int) =~= name);
    assert((name + slashes).subrange(0, name.len() as int) =~= name);
    lemma_name_end(Seq::empty(), slashes);
    assert(Seq::<char>::empty() + slashes =~= slashes);
}

} // verus!
