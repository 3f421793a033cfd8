//! Calls counted together: by day, model, project, activity and thread.

use vstd::prelude::*;

use crate::model::day_of;
use crate::model::no_usage;
use crate::model::usage_sum;
use crate::model::CallView;
use crate::model::InferenceCall;
use crate::model::ModelConfidence;
use crate::model::TokenUsage;
use crate::pricing;
use crate::pricing::cost_of;
use crate::pricing::CostBreakdown;
use crate::pricing::CostView;
use crate::pricing::PricingEngine;
use crate::pricing::RuleView;
use crate::text;
use crate::text::last_part;
use crate::text_map::has_key;
use crate::text_map::lemma_next_row;
use crate::text_map::lemma_ordered_take;
use crate::text_map::lemma_rows_map_at;
use crate::text_map::lemma_rows_of;
use crate::text_map::ordered;
use crate::text_map::rows_map;
use crate::text_map::rows_of;
use crate::text_map::TextMap;

verus! {

/// Calls counted together. Counts are taken modulo 2^64.
#[derive(Debug, Clone, Copy, PartialEq, Eq, Structural)]
pub struct Bucket {
    pub calls: u64,
    pub usage: TokenUsage,
    pub long_context_calls: u64,
    pub unknown_model_tokens: u64,
    pub unknown_model_calls: u64,
}

impl DeepView for Bucket {
    type V = Bucket;

    open spec fn deep_view(&self) -> Bucket {
        *self
    }
}

/// No call.
pub open spec fn no_calls() -> Bucket {
    Bucket {
        calls: 0,
        usage: no_usage(),
        long_context_calls: 0,
        unknown_model_tokens: 0,
        unknown_model_calls: 0,
    }
}

impl Default for Bucket {
    fn default() -> (r: Self)
        ensures
            r == no_calls(),
    {
        Bucket {
            calls: 0,
            usage: TokenUsage::default(),
            long_context_calls: 0,
            unknown_model_tokens: 0,
            unknown_model_calls: 0,
        }
    }
}

impl Bucket {
    /// With one more call; a call without a price counts as one of an unknown model.
    pub open spec fn with_call(self, c: CallView, cost: Option<CostView>) -> Bucket {
        match cost {
            Some(cost) => Bucket {
                calls: self.calls.wrapping_add(1),
                usage: self.usage.plus(c.usage),
                long_context_calls: if cost.long_context {
                    self.long_context_calls.wrapping_add(1)
                } else {
                    self.long_context_calls
                },
                ..self
            },
            None => Bucket {
                calls: self.calls.wrapping_add(1),
                usage: self.usage.plus(c.usage),
                unknown_model_tokens: self.unknown_model_tokens.wrapping_add(
                    c.usage.total_tokens,
                ),
                unknown_model_calls: self.unknown_model_calls.wrapping_add(1),
                ..self
            },
        }
    }

    /// Counts one more call.
    pub fn add(&mut self, call: &InferenceCall, cd: Option<&CostBreakdown>)
        ensures
            *final(self) == old(self).with_call(
                call@,
                match cd {
                    Some(cd) => Some(cd@),
                    None => None,
                },
            ),
    {
        self.calls = self.calls.wrapping_add(1);
        self.usage.add(&call.usage);
        match cd {
            Some(cd) => {
                if cd.long_context {
                    self.long_context_calls = self.long_context_calls.wrapping_add(1);
                }
            },
            None => {
                self.unknown_model_tokens = self.unknown_model_tokens.wrapping_add(
                    call.usage.total_tokens,
                );
                self.unknown_model_calls = self.unknown_model_calls.wrapping_add(1);
            },
        }
    }
}

/// The price of a call, where it has one.
pub open spec fn price_of(rules: Seq<RuleView>, c: CallView) -> Option<CostView> {
    let cost = cost_of(rules, c);
    if cost.model_known {
        Some(cost)
    } else {
        None
    }
}

/// Prices a call and counts it.
pub fn priced_bucket(bucket: &mut Bucket, call: &InferenceCall, engine: &PricingEngine)
    ensures
        *final(bucket) == old(bucket).with_call(
            call@,
            price_of(engine.codex.rules.deep_view(), call@),
        ),
{
    let cd = engine.cost_codex(call);
    if cd.model_known {
        bucket.add(call, Some(&cd));
    } else {
        bucket.add(call, None);
    }
}

/// Calls counted together.
pub open spec fn bucket_sum(rules: Seq<RuleView>, calls: Seq<CallView>) -> Bucket
    decreases calls.len(),
{
    if calls.len() == 0 {
        no_calls()
    } else {
        bucket_sum(rules, calls.drop_last()).with_call(calls.last(), price_of(rules, calls.last()))
    }
}

/// Counts calls together.
pub fn total_of(calls: &Vec<InferenceCall>, engine: &PricingEngine) -> (r: Bucket)
    ensures
        r == bucket_sum(engine.codex.rules.deep_view(), calls.deep_view()),
{
    let ghost rules = engine.codex.rules.deep_view();
    let ghost all = calls.deep_view();
    let n: usize = calls.len();
    let mut total = Bucket::default();
    let mut i: usize = 0;
    while i < n
        invariant
            n == calls@.len(),
            i <= n,
            all == calls.deep_view(),
            rules == engine.codex.rules.deep_view(),
            total == bucket_sum(rules, all.take(i as int)),
        decreases n - i,
    {
        assert(all[i as int] == calls@[i as int]@);
        assert(all.take(i + 1).drop_last() =~= all.take(i as int));
        priced_bucket(&mut total, &calls[i], engine);
        i += 1;
    }
    assert(all.take(n as int) =~= all);
    total
}

/// What calls are counted together by.
pub trait Grouping {
    /// The key of a call; none where it stays out.
    spec fn spec_key(c: CallView) -> Option<Seq<char>>;

    fn key(c: &InferenceCall) -> (r: Option<String>)
        ensures
            r.deep_view() == Self::spec_key(c@),
    ;
}

/// The calls with this key, in their order.
pub open spec fn group<G: Grouping>(calls: Seq<CallView>, k: Seq<char>) -> Seq<CallView>
    decreases calls.len(),
{
    if calls.len() == 0 {
        Seq::empty()
    } else if G::spec_key(calls.last()) == Some(k) {
        group::<G>(calls.drop_last(), k).push(calls.last())
    } else {
        group::<G>(calls.drop_last(), k)
    }
}

/// Calls counted by their keys: a bucket for each key that occurs, with the calls of that key.
pub open spec fn buckets<G: Grouping>(rules: Seq<RuleView>, calls: Seq<CallView>) -> Map<
    Seq<char>,
    Bucket,
> {
    Map::new(
        |k: Seq<char>| group::<G>(calls, k).len() > 0,
        |k: Seq<char>| bucket_sum(rules, group::<G>(calls, k)),
    )
}

/// Buckets by their keys.
pub type Buckets = TextMap<Bucket>;

fn counted_by<G: Grouping>(calls: &Vec<InferenceCall>, engine: &PricingEngine) -> (r: Buckets)
    ensures
        r@ == buckets::<G>(engine.codex.rules.deep_view(), calls.deep_view()),
{
    let ghost rules = engine.codex.rules.deep_view();
    let ghost all = calls.deep_view();
    let n: usize = calls.len();
    let mut out: Buckets = TextMap::new();
    let mut i: usize = 0;
    assert(out@ =~= buckets::<G>(rules, all.take(0)));
    while i < n
        invariant
            n == calls@.len(),
            i <= n,
            all == calls.deep_view(),
            rules == engine.codex.rules.deep_view(),
            out@ == buckets::<G>(rules, all.take(i as int)),
        decreases n - i,
    {
        let c = &calls[i];
        let ghost before = all.take(i as int);
        assert(all[i as int] == c@);
        assert(all.take(i + 1).drop_last() =~= before);
        assert(all.take(i + 1).last() == c@);
        let ghost old_out = out@;
        if let Some(key) = G::key(c) {
            let mut bucket = match out.get(key.as_str()) {
                Some(b) => *b,
                None => Bucket::default(),
            };
            let ghost g = group::<G>(before, key@);
            assert(old_out.contains_key(key@) == (g.len() > 0));
            assert(bucket == bucket_sum(rules, g));
            priced_bucket(&mut bucket, c, engine);
            assert(g.push(c@).drop_last() =~= g);
            assert(bucket == bucket_sum(rules, g.push(c@)));
            out.insert(key, bucket);
        }
        proof {
            let next = all.take(i + 1);
            assert forall|k: Seq<char>| #[trigger] out@.contains_key(k) == (group::<G>(next, k).len()
                > 0) by {
                assert(old_out.contains_key(k) == (group::<G>(before, k).len() > 0));
            }
            assert forall|k: Seq<char>| #[trigger] out@.contains_key(k) implies out@[k]
                == bucket_sum(rules, group::<G>(next, k)) by {
                if G::spec_key(c@) == Some(k) {
                    assert(group::<G>(next, k) == group::<G>(before, k).push(c@));
                } else {
                    assert(group::<G>(next, k) == group::<G>(before, k));
                    assert(old_out.contains_key(k));
                }
            }
            assert(out@ =~= buckets::<G>(rules, next));
        }
        i += 1;
    }
    assert(all.take(n as int) =~= all);
    out
}

/// A text that is there, or another.
pub open spec fn or_text(t: Option<Seq<char>>, other: Seq<char>) -> Seq<char> {
    match t {
        Some(s) => s,
        None => other,
    }
}

fn text_or(t: &Option<String>, other: &str) -> (r: String)
    ensures
        r@ == or_text(t.deep_view(), other@),
{
    match t {
        Some(s) => s.clone(),
        None => other.to_owned(),
    }
}

/// By the day of the record.
pub struct ByDay;

impl Grouping for ByDay {
    open spec fn spec_key(c: CallView) -> Option<Seq<char>> {
        Some(day_of(c.timestamp_utc))
    }

    fn key(c: &InferenceCall) -> (r: Option<String>) {
        Some(c.day().to_owned())
    }
}

/// By the model.
pub struct ByModel;

impl Grouping for ByModel {
    open spec fn spec_key(c: CallView) -> Option<Seq<char>> {
        Some(or_text(c.model_slug, "<unknown>"@))
    }

    fn key(c: &InferenceCall) -> (r: Option<String>) {
        Some(text_or(&c.model_slug, "<unknown>"))
    }
}

/// By the name of the project.
pub struct ByProject;

impl Grouping for ByProject {
    open spec fn spec_key(c: CallView) -> Option<Seq<char>> {
        match c.project_path {
            Some(p) => Some(last_part(p)),
            None => Some("<unknown>"@),
        }
    }

    fn key(c: &InferenceCall) -> (r: Option<String>) {
        match &c.project_path {
            Some(p) => Some(project_name(p.as_str())),
            None => Some("<unknown>".to_owned()),
        }
    }
}

/// By the activity: the one that is known, else what the model of auto review tells. No other
/// activity is made up.
pub struct ByActivity;

impl Grouping for ByActivity {
    open spec fn spec_key(c: CallView) -> Option<Seq<char>> {
        match c.activity {
            Some(a) => Some(a),
            None => if c.model_slug == Some("codex-auto-review"@) {
                Some("auto_review"@)
            } else {
                Some("unknown"@)
            },
        }
    }

    fn key(c: &InferenceCall) -> (r: Option<String>) {
        match &c.activity {
            Some(a) => Some(a.clone()),
            None => match &c.model_slug {
                Some(m) => if text::same(m.as_str(), "codex-auto-review") {
                    Some("auto_review".to_owned())
                } else {
                    Some("unknown".to_owned())
                },
                None => Some("unknown".to_owned()),
            },
        }
    }
}

/// By the thread.
pub struct ByThread;

impl Grouping for ByThread {
    open spec fn spec_key(c: CallView) -> Option<Seq<char>> {
        Some(or_text(c.thread_id, "<unknown>"@))
    }

    fn key(c: &InferenceCall) -> (r: Option<String>) {
        Some(text_or(&c.thread_id, "<unknown>"))
    }
}

/// By the thread, without the calls of no thread.
pub struct ByKnownThread;

impl Grouping for ByKnownThread {
    open spec fn spec_key(c: CallView) -> Option<Seq<char>> {
        c.thread_id
    }

    fn key(c: &InferenceCall) -> (r: Option<String>) {
        crate::model::copy_text(&c.thread_id)
    }
}

/// Counts calls by day.
pub fn by_day(calls: &Vec<InferenceCall>, engine: &PricingEngine) -> (r: Buckets)
    ensures
        r@ == buckets::<ByDay>(engine.codex.rules.deep_view(), calls.deep_view()),
{
    counted_by::<ByDay>(calls, engine)
}

/// Counts calls by model.
pub fn by_model(calls: &Vec<InferenceCall>, engine: &PricingEngine) -> (r: Buckets)
    ensures
        r@ == buckets::<ByModel>(engine.codex.rules.deep_view(), calls.deep_view()),
{
    counted_by::<ByModel>(calls, engine)
}

/// Counts calls by project.
pub fn by_project(calls: &Vec<InferenceCall>, engine: &PricingEngine) -> (r: Buckets)
    ensures
        r@ == buckets::<ByProject>(engine.codex.rules.deep_view(), calls.deep_view()),
{
    counted_by::<ByProject>(calls, engine)
}

/// The name of a project: the last part of its path.
pub fn project_name(path: &str) -> (r: String)
    ensures
        r@ == last_part(path@),
{
    text::find_last_part(path)
}

/// Counts calls by activity, each call under one.
pub fn by_activity(calls: &Vec<InferenceCall>, engine: &PricingEngine) -> (r: Buckets)
    ensures
        r@ == buckets::<ByActivity>(engine.codex.rules.deep_view(), calls.deep_view()),
{
    counted_by::<ByActivity>(calls, engine)
}

/// Counts calls by thread, each call under one.
pub fn by_thread(calls: &Vec<InferenceCall>, engine: &PricingEngine) -> (r: Buckets)
    ensures
        r@ == buckets::<ByThread>(engine.codex.rules.deep_view(), calls.deep_view()),
{
    counted_by::<ByThread>(calls, engine)
}

/// The usage of calls together.
pub fn usage_of(calls: &Vec<InferenceCall>) -> (r: TokenUsage)
    ensures
        r == usage_sum(calls.deep_view()),
{
    pricing::usage_of(calls)
}

/// How many calls have a model with this confidence.
pub open spec fn calls_with_confidence(calls: Seq<CallView>, m: ModelConfidence) -> nat
    decreases calls.len(),
{
    if calls.len() == 0 {
        0
    } else {
        calls_with_confidence(calls.drop_last(), m) + if calls.last().model_confidence == m {
            1nat
        } else {
            0
        }
    }
}

/// Counts the calls of each confidence: exact, inferred, unknown.
pub fn confidence_stats(calls: &Vec<InferenceCall>) -> (r: (u64, u64, u64))
    ensures
        r.0 == calls_with_confidence(calls.deep_view(), ModelConfidence::Exact),
        r.1 == calls_with_confidence(calls.deep_view(), ModelConfidence::Inferred),
        r.2 == calls_with_confidence(calls.deep_view(), ModelConfidence::Unknown),
        r.0 + r.1 + r.2 == calls@.len(),
{
    let ghost all = calls.deep_view();
    let n: usize = calls.len();
    let mut exact: u64 = 0;
    let mut inferred: u64 = 0;
    let mut unknown: u64 = 0;
    let mut i: usize = 0;
    while i < n
        invariant
            n == calls@.len(),
            i <= n,
            all == calls.deep_view(),
            exact + inferred + unknown == i,
            exact == calls_with_confidence(all.take(i as int), ModelConfidence::Exact),
            inferred == calls_with_confidence(all.take(i as int), ModelConfidence::Inferred),
            unknown == calls_with_confidence(all.take(i as int), ModelConfidence::Unknown),
        decreases n - i,
    {
        let c = &calls[i];
        assert(all[i as int] == c@);
        assert(all.take(i + 1).drop_last() =~= all.take(i as int));
        match c.model_confidence {
            ModelConfidence::Exact => {
                exact += 1;
            },
            ModelConfidence::Inferred => {
                inferred += 1;
            },
            ModelConfidence::Unknown => {
                unknown += 1;
            },
        }
        i += 1;
    }
    assert(all.take(n as int) =~= all);
    (exact, inferred, unknown)
}

/// Something unusual in the usage.
#[derive(Debug, PartialEq, Eq)]
pub enum Anomaly {
    /// Auto review takes more than a tenth of the input.
    AutoReview { input: u64, total: u64 },
    /// Calls with more input than the threshold of long context.
    LongContext(u64),
    /// A thread reads less than 70 % of its input from the cache.
    LowCache { thread: String, cached: u64, input: u64 },
    /// A thread with more than ten million tokens of input.
    HeavyThread { thread: String, input: u64 },
    /// A day with more than twice the daily average; `total` is the input of all `days`.
    BusyDay { day: String, input: u64, total: u64, days: usize },
}

/// What an [`Anomaly`] says.
pub enum AnomalyView {
    AutoReview { input: u64, total: u64 },
    LongContext(u64),
    LowCache { thread: Seq<char>, cached: u64, input: u64 },
    HeavyThread { thread: Seq<char>, input: u64 },
    BusyDay { day: Seq<char>, input: u64, total: u64, days: usize },
}

impl DeepView for Anomaly {
    type V = AnomalyView;

    open spec fn deep_view(&self) -> AnomalyView {
        match self {
            Anomaly::AutoReview { input, total } => AnomalyView::AutoReview {
                input: *input,
                total: *total,
            },
            Anomaly::LongContext(n) => AnomalyView::LongContext(*n),
            Anomaly::LowCache { thread, cached, input } => AnomalyView::LowCache {
                thread: thread@,
                cached: *cached,
                input: *input,
            },
            Anomaly::HeavyThread { thread, input } => AnomalyView::HeavyThread {
                thread: thread@,
                input: *input,
            },
            Anomaly::BusyDay { day, input, total, days } => AnomalyView::BusyDay {
                day: day@,
                input: *input,
                total: *total,
                days: *days,
            },
        }
    }
}

/// The usage of each thread.
pub open spec fn thread_usage(calls: Seq<CallView>) -> Map<Seq<char>, TokenUsage> {
    Map::new(
        |k: Seq<char>| group::<ByKnownThread>(calls, k).len() > 0,
        |k: Seq<char>| usage_sum(group::<ByKnownThread>(calls, k)),
    )
}

/// A thread of some size that reads less than 70 % of its input from the cache.
pub open spec fn is_low_cache(u: TokenUsage) -> bool {
    u.input_tokens > 100_000 && u.cached_input_tokens * 10 < u.input_tokens * 7
}

/// A thread with more than ten million tokens of input.
pub open spec fn is_heavy(u: TokenUsage) -> bool {
    u.input_tokens > 10_000_000
}

/// The threads that read little from the cache.
pub open spec fn low_cache_threads(rows: Seq<(Seq<char>, TokenUsage)>) -> Seq<AnomalyView>
    decreases rows.len(),
{
    if rows.len() == 0 {
        Seq::empty()
    } else {
        let init = low_cache_threads(rows.drop_last());
        let (thread, u) = rows.last();
        if is_low_cache(u) {
            init.push(
                AnomalyView::LowCache {
                    thread,
                    cached: u.cached_input_tokens,
                    input: u.input_tokens,
                },
            )
        } else {
            init
        }
    }
}

/// The threads with much input.
pub open spec fn heavy_threads(rows: Seq<(Seq<char>, TokenUsage)>) -> Seq<AnomalyView>
    decreases rows.len(),
{
    if rows.len() == 0 {
        Seq::empty()
    } else {
        let init = heavy_threads(rows.drop_last());
        let (thread, u) = rows.last();
        if is_heavy(u) {
            init.push(AnomalyView::HeavyThread { thread, input: u.input_tokens })
        } else {
            init
        }
    }
}

/// The input of all days, modulo 2^64.
pub open spec fn input_of_days(rows: Seq<(Seq<char>, Bucket)>) -> u64
    decreases rows.len(),
{
    if rows.len() == 0 {
        0
    } else {
        input_of_days(rows.drop_last()).wrapping_add(rows.last().1.usage.input_tokens)
    }
}

/// More than twice the average of `days` days with `total` input, that average not being zero.
pub open spec fn is_busy(input: u64, total: u64, days: nat) -> bool {
    total > 0 && input * days > 2 * total
}

/// The days with much input.
pub open spec fn busy_days(rows: Seq<(Seq<char>, Bucket)>, total: u64, days: usize) -> Seq<
    AnomalyView,
>
    decreases rows.len(),
{
    if rows.len() == 0 {
        Seq::empty()
    } else {
        let init = busy_days(rows.drop_last(), total, days);
        let (day, b) = rows.last();
        if is_busy(b.usage.input_tokens, total, days as nat) {
            init.push(AnomalyView::BusyDay { day, input: b.usage.input_tokens, total, days })
        } else {
            init
        }
    }
}

/// The first elements, five at most.
pub open spec fn at_most_five(s: Seq<AnomalyView>) -> Seq<AnomalyView> {
    if s.len() > 5 {
        s.take(5)
    } else {
        s
    }
}

/// The anomaly of auto review, where its input is more than a tenth of the whole.
pub open spec fn auto_review_anomaly(input: u64, total: u64) -> Seq<AnomalyView> {
    if total > 0 && input * 10 > total {
        seq![AnomalyView::AutoReview { input, total }]
    } else {
        Seq::empty()
    }
}

/// The anomaly of long context, where there is a call of it.
pub open spec fn long_context_anomaly(n: u64) -> Seq<AnomalyView> {
    if n > 0 {
        seq![AnomalyView::LongContext(n)]
    } else {
        Seq::empty()
    }
}

/// The input under one key of a table.
pub open spec fn input_under(m: Map<Seq<char>, Bucket>, k: Seq<char>) -> u64 {
    if m.contains_key(k) {
        m[k].usage.input_tokens
    } else {
        0
    }
}

/// All anomalies: threads and days each in the order of their names.
pub open spec fn anomalies_of(
    calls: Seq<CallView>,
    by_day: Map<Seq<char>, Bucket>,
    by_activity: Map<Seq<char>, Bucket>,
    long_context_calls: u64,
) -> Seq<AnomalyView> {
    let threads = rows_of(thread_usage(calls));
    let days = rows_of(by_day);
    auto_review_anomaly(
        input_under(by_activity, "auto_review"@),
        usage_sum(calls).input_tokens,
    ) + long_context_anomaly(long_context_calls) + at_most_five(low_cache_threads(threads))
        + heavy_threads(threads) + busy_days(days, input_of_days(days), days.len() as usize)
}

fn usage_by_thread(calls: &Vec<InferenceCall>) -> (r: TextMap<TokenUsage>)
    ensures
        r@ == thread_usage(calls.deep_view()),
{
    let ghost all = calls.deep_view();
    let n: usize = calls.len();
    let mut out: TextMap<TokenUsage> = TextMap::new();
    let mut i: usize = 0;
    assert(out@ =~= thread_usage(all.take(0)));
    while i < n
        invariant
            n == calls@.len(),
            i <= n,
            all == calls.deep_view(),
            out@ == thread_usage(all.take(i as int)),
        decreases n - i,
    {
        let c = &calls[i];
        let ghost before = all.take(i as int);
        let ghost next = all.take(i + 1);
        assert(all[i as int] == c@);
        assert(next.drop_last() =~= before);
        assert(next.last() == c@);
        let ghost old_out = out@;
        if let Some(key) = &c.thread_id {
            let mut usage = match out.get(key.as_str()) {
                Some(u) => *u,
                None => TokenUsage::default(),
            };
            let ghost g = group::<ByKnownThread>(before, key@);
            assert(old_out.contains_key(key@) == (g.len() > 0));
            assert(usage == usage_sum(g));
            usage.add(&c.usage);
            assert(g.push(c@).drop_last() =~= g);
            assert(usage == usage_sum(g.push(c@)));
            out.insert(key.clone(), usage);
        }
        proof {
            assert forall|k: Seq<char>| #[trigger] out@.contains_key(k) == (group::<ByKnownThread>(
                next,
                k,
            ).len() > 0) by {
                assert(old_out.contains_key(k) == (group::<ByKnownThread>(before, k).len() > 0));
            }
            assert forall|k: Seq<char>| #[trigger] out@.contains_key(k) implies out@[k]
                == usage_sum(group::<ByKnownThread>(next, k)) by {
                if c@.thread_id == Some(k) {
                    assert(group::<ByKnownThread>(next, k) == group::<ByKnownThread>(
                        before,
                        k,
                    ).push(c@));
                } else {
                    assert(group::<ByKnownThread>(next, k) == group::<ByKnownThread>(before, k));
                    assert(old_out.contains_key(k));
                }
            }
            assert(out@ =~= thread_usage(next));
        }
        i += 1;
    }
    assert(all.take(n as int) =~= all);
    out
}

fn is_below_share(part: u64, whole: u64) -> (r: bool)
    ensures
        r == (part * 10 < whole * 7),
{
    (part as u128) * 10 < (whole as u128) * 7
}

fn exceeds_twice_average(input: u64, total: u64, days: usize) -> (r: bool)
    ensures
        r == is_busy(input, total, days as nat),
{
    assert(0 <= input * days <= 0xffff_ffff_ffff_ffff * 0xffff_ffff_ffff_ffff) by (nonlinear_arith)
        requires
            0 <= input <= 0xffff_ffff_ffff_ffff,
            0 <= days <= 0xffff_ffff_ffff_ffff,
    ;
    total > 0 && (input as u128) * (days as u128) > 2 * (total as u128)
}

/// Adds the threads that read little from the cache, five at most.
fn add_low_cache(threads: &TextMap<TokenUsage>, out: &mut Vec<Anomaly>)
    ensures
        final(out).deep_view() == old(out).deep_view() + at_most_five(
            low_cache_threads(rows_of(threads@)),
        ),
{
    let n: usize = threads.len();
    let ghost rows = threads.rows();
    let ghost before = out.deep_view();
    proof {
        lemma_rows_of(rows);
    }
    let mut found: usize = 0;
    let mut i: usize = 0;
    assert(out.deep_view() =~= before + low_cache_threads(rows.take(0)));
    while i < n && found < 5
        invariant
            n == rows.len(),
            rows == threads.rows(),
            i <= n,
            found <= 5,
            found == low_cache_threads(rows.take(i as int)).len(),
            out.deep_view() == before + low_cache_threads(rows.take(i as int)),
        decreases n - i,
    {
        let u = threads.value_at(i);
        let thread = threads.key_at(i);
        assert(rows.take(i + 1).drop_last() =~= rows.take(i as int));
        assert(rows.take(i + 1).last() == (thread@, *u));
        let ghost have = out.deep_view();
        if u.input_tokens > 100_000 && is_below_share(u.cached_input_tokens, u.input_tokens) {
            let a = Anomaly::LowCache {
                thread: thread.clone(),
                cached: u.cached_input_tokens,
                input: u.input_tokens,
            };
            let ghost v = a.deep_view();
            out.push(a);
            assert(out.deep_view() =~= have.push(v));
            found += 1;
        }
        assert(out.deep_view() =~= before + low_cache_threads(rows.take(i + 1)));
        i += 1;
    }
    proof {
        lemma_low_cache_grows(rows, i as int);
        if i == n {
            assert(rows.take(n as int) =~= rows);
        }
        let some = low_cache_threads(rows.take(i as int));
        let all = low_cache_threads(rows);
        if some.len() == 5 {
            assert(at_most_five(all) =~= some);
        }
    }
}

proof fn lemma_low_cache_grows(rows: Seq<(Seq<char>, TokenUsage)>, i: int)
    requires
        0 <= i <= rows.len(),
    ensures
        ({
            let some = low_cache_threads(rows.take(i));
            let all = low_cache_threads(rows);
            some.len() <= all.len() && all.take(some.len() as int) == some
        }),
    decreases rows.len() - i,
{
    let some = low_cache_threads(rows.take(i));
    let all = low_cache_threads(rows);
    if i == rows.len() {
        assert(rows.take(i) =~= rows);
        assert(all.take(some.len() as int) =~= some);
    } else {
        lemma_low_cache_grows(rows, i + 1);
        assert(rows.take(i + 1).drop_last() =~= rows.take(i));
        let next = low_cache_threads(rows.take(i + 1));
        assert(next.take(some.len() as int) =~= some);
        assert(all.take(some.len() as int) =~= all.take(next.len() as int).take(
            some.len() as int,
        ));
    }
}

/// Adds the threads with much input.
fn add_heavy(threads: &TextMap<TokenUsage>, out: &mut Vec<Anomaly>)
    ensures
        final(out).deep_view() == old(out).deep_view() + heavy_threads(rows_of(threads@)),
{
    let n: usize = threads.len();
    let ghost rows = threads.rows();
    let ghost before = out.deep_view();
    proof {
        lemma_rows_of(rows);
    }
    let mut i: usize = 0;
    assert(out.deep_view() =~= before + heavy_threads(rows.take(0)));
    while i < n
        invariant
            n == rows.len(),
            rows == threads.rows(),
            i <= n,
            out.deep_view() == before + heavy_threads(rows.take(i as int)),
        decreases n - i,
    {
        let u = threads.value_at(i);
        let thread = threads.key_at(i);
        assert(rows.take(i + 1).drop_last() =~= rows.take(i as int));
        assert(rows.take(i + 1).last() == (thread@, *u));
        let ghost have = out.deep_view();
        if u.input_tokens > 10_000_000 {
            let a = Anomaly::HeavyThread { thread: thread.clone(), input: u.input_tokens };
            let ghost v = a.deep_view();
            out.push(a);
            assert(out.deep_view() =~= have.push(v));
        }
        assert(out.deep_view() =~= before + heavy_threads(rows.take(i + 1)));
        i += 1;
    }
    assert(rows.take(n as int) =~= rows);
}

/// Adds the days with much input.
fn add_busy_days(by_day: &Buckets, out: &mut Vec<Anomaly>)
    ensures
        ({
            let days = rows_of(by_day@);
            final(out).deep_view() == old(out).deep_view() + busy_days(
                days,
                input_of_days(days),
                days.len() as usize,
            )
        }),
{
    let n: usize = by_day.len();
    let ghost rows = by_day.rows();
    let ghost before = out.deep_view();
    proof {
        lemma_rows_of(rows);
    }
    let mut total: u64 = 0;
    let mut j: usize = 0;
    while j < n
        invariant
            n == rows.len(),
            rows == by_day.rows(),
            j <= n,
            total == input_of_days(rows.take(j as int)),
        decreases n - j,
    {
        let b = by_day.value_at(j);
        assert(rows.take(j + 1).drop_last() =~= rows.take(j as int));
        total = total.wrapping_add(b.usage.input_tokens);
        j += 1;
    }
    assert(rows.take(n as int) =~= rows);
    let mut i: usize = 0;
    assert(out.deep_view() =~= before + busy_days(rows.take(0), total, n));
    while i < n
        invariant
            n == rows.len(),
            rows == by_day.rows(),
            i <= n,
            out.deep_view() == before + busy_days(rows.take(i as int), total, n),
        decreases n - i,
    {
        let b = by_day.value_at(i);
        let day = by_day.key_at(i);
        assert(rows.take(i + 1).drop_last() =~= rows.take(i as int));
        assert(rows.take(i + 1).last() == (day@, *b));
        let ghost have = out.deep_view();
        if exceeds_twice_average(b.usage.input_tokens, total, n) {
            let a = Anomaly::BusyDay {
                day: day.clone(),
                input: b.usage.input_tokens,
                total,
                days: n,
            };
            let ghost v = a.deep_view();
            out.push(a);
            assert(out.deep_view() =~= have.push(v));
        }
        assert(out.deep_view() =~= before + busy_days(rows.take(i + 1), total, n));
        i += 1;
    }
}

/// Finds what is unusual in the usage.
pub fn detect_anomalies(
    calls: &Vec<InferenceCall>,
    by_day: &Buckets,
    by_activity: &Buckets,
    long_context_calls: u64,
) -> (r: Vec<Anomaly>)
    ensures
        r.deep_view() == anomalies_of(calls.deep_view(), by_day@, by_activity@, long_context_calls),
{
    let mut out: Vec<Anomaly> = Vec::new();
    let total: u64 = usage_of(calls).input_tokens;
    let input: u64 = match by_activity.get("auto_review") {
        Some(b) => b.usage.input_tokens,
        None => 0,
    };
    if total > 0 && (input as u128) * 10 > (total as u128) {
        out.push(Anomaly::AutoReview { input, total });
    }
    assert(out.deep_view() =~= auto_review_anomaly(input, total));
    let ghost first = out.deep_view();
    if long_context_calls > 0 {
        out.push(Anomaly::LongContext(long_context_calls));
    }
    assert(out.deep_view() =~= first + long_context_anomaly(long_context_calls));
    let threads = usage_by_thread(calls);
    add_low_cache(&threads, &mut out);
    add_heavy(&threads, &mut out);
    add_busy_days(by_day, &mut out);
    out
}

/// The usage under all rows of a table.
pub open spec fn usage_of_rows(rows: Seq<(Seq<char>, Bucket)>) -> TokenUsage
    decreases rows.len(),
{
    if rows.len() == 0 {
        no_usage()
    } else {
        usage_of_rows(rows.drop_last()).plus(rows.last().1.usage)
    }
}

/// The number of calls under all rows of a table.
pub open spec fn calls_of_rows(rows: Seq<(Seq<char>, Bucket)>) -> nat
    decreases rows.len(),
{
    if rows.len() == 0 {
        0
    } else {
        calls_of_rows(rows.drop_last()) + rows.last().1.calls as nat
    }
}

/// The calls whose key has a row.
spec fn members<G: Grouping>(calls: Seq<CallView>, rows: Seq<(Seq<char>, Bucket)>) -> Seq<CallView>
    decreases calls.len(),
{
    if calls.len() == 0 {
        Seq::empty()
    } else {
        let key = G::spec_key(calls.last());
        if key is Some && has_key(rows, key->0) {
            members::<G>(calls.drop_last(), rows).push(calls.last())
        } else {
            members::<G>(calls.drop_last(), rows)
        }
    }
}

proof fn lemma_bucket_usage(rules: Seq<RuleView>, calls: Seq<CallView>)
    requires
        calls.len() <= u64::MAX,
    ensures
        bucket_sum(rules, calls).usage == usage_sum(calls),
        bucket_sum(rules, calls).calls == calls.len(),
    decreases calls.len(),
{
    if calls.len() > 0 {
        lemma_bucket_usage(rules, calls.drop_last());
    }
}

proof fn lemma_group_len<G: Grouping>(calls: Seq<CallView>, k: Seq<char>)
    ensures
        group::<G>(calls, k).len() <= calls.len(),
    decreases calls.len(),
{
    if calls.len() > 0 {
        lemma_group_len::<G>(calls.drop_last(), k);
    }
}

proof fn lemma_members_split<G: Grouping>(calls: Seq<CallView>, rows: Seq<(Seq<char>, Bucket)>)
    requires
        rows.len() > 0,
        !has_key(rows.drop_last(), rows.last().0),
    ensures
        ({
            let init = members::<G>(calls, rows.drop_last());
            let g = group::<G>(calls, rows.last().0);
            let all = members::<G>(calls, rows);
            &&& usage_sum(all) == usage_sum(init).plus(usage_sum(g))
            &&& all.len() == init.len() + g.len()
        }),
    decreases calls.len(),
{
    if calls.len() > 0 {
        let (head, c) = (calls.drop_last(), calls.last());
        lemma_members_split::<G>(head, rows);
        let init = members::<G>(head, rows.drop_last());
        let g = group::<G>(head, rows.last().0);
        let all = members::<G>(head, rows);
        assert(init.push(c).drop_last() =~= init);
        assert(g.push(c).drop_last() =~= g);
        assert(all.push(c).drop_last() =~= all);
        let key = G::spec_key(c);
        if key is Some {
            let k = key->0;
            if has_key(rows, k) {
                let i = choose|i: int| 0 <= i < rows.len() && #[trigger] rows[i].0 == k;
                if i < rows.len() - 1 {
                    assert(rows.drop_last()[i].0 == k);
                }
            }
            if has_key(rows.drop_last(), k) {
                let i = choose|i: int|
                    0 <= i < rows.drop_last().len() && #[trigger] rows.drop_last()[i].0 == k;
                assert(rows[i].0 == k);
            }
            if k == rows.last().0 {
                assert(rows[rows.len() - 1].0 == k);
            }
        }
    }
}

proof fn lemma_no_members<G: Grouping>(calls: Seq<CallView>, rows: Seq<(Seq<char>, Bucket)>)
    requires
        rows.len() == 0,
    ensures
        members::<G>(calls, rows).len() == 0,
    decreases calls.len(),
{
    if calls.len() > 0 {
        lemma_no_members::<G>(calls.drop_last(), rows);
    }
}

proof fn lemma_rows_sum<G: Grouping>(
    rules: Seq<RuleView>,
    calls: Seq<CallView>,
    rows: Seq<(Seq<char>, Bucket)>,
)
    requires
        calls.len() <= u64::MAX,
        ordered(rows),
        forall|i: int|
            0 <= i < rows.len() ==> (#[trigger] rows[i]).1 == bucket_sum(
                rules,
                group::<G>(calls, rows[i].0),
            ),
    ensures
        usage_of_rows(rows) == usage_sum(members::<G>(calls, rows)),
        calls_of_rows(rows) == members::<G>(calls, rows).len(),
    decreases rows.len(),
{
    if rows.len() == 0 {
        lemma_no_members::<G>(calls, rows);
    } else {
        let init = rows.drop_last();
        let n = rows.len() - 1;
        let k = rows.last().0;
        lemma_next_row(rows, n);
        assert(init =~= rows.take(n));
        assert(!has_key(init, k));
        lemma_ordered_take(rows, n);
        assert forall|i: int| 0 <= i < init.len() implies (#[trigger] init[i]).1 == bucket_sum(
            rules,
            group::<G>(calls, init[i].0),
        ) by {
            assert(init[i] == rows[i]);
        }
        lemma_rows_sum::<G>(rules, calls, init);
        lemma_members_split::<G>(calls, rows);
        lemma_group_len::<G>(calls, k);
        assert(rows[n].1 == bucket_sum(rules, group::<G>(calls, k)));
        lemma_bucket_usage(rules, group::<G>(calls, k));
    }
}

proof fn lemma_all_are_members<G: Grouping>(
    calls: Seq<CallView>,
    rows: Seq<(Seq<char>, Bucket)>,
)
    requires
        forall|i: int|
            0 <= i < calls.len() ==> {
                let key = G::spec_key(#[trigger] calls[i]);
                key is Some && has_key(rows, key->0)
            },
    ensures
        members::<G>(calls, rows) == calls,
    decreases calls.len(),
{
    if calls.len() > 0 {
        let head = calls.drop_last();
        assert forall|i: int| 0 <= i < head.len() implies ({
            let key = G::spec_key(#[trigger] head[i]);
            key is Some && has_key(rows, key->0)
        }) by {
            assert(head[i] == calls[i]);
        }
        lemma_all_are_members::<G>(head, rows);
        assert(calls[calls.len() - 1] == calls.last());
        assert(calls =~= head.push(calls.last()));
    }
}

proof fn lemma_key_has_group<G: Grouping>(calls: Seq<CallView>, i: int)
    requires
        0 <= i < calls.len(),
        G::spec_key(calls[i]) is Some,
    ensures
        group::<G>(calls, G::spec_key(calls[i])->0).len() > 0,
    decreases calls.len(),
{
    if i < calls.len() - 1 {
        lemma_key_has_group::<G>(calls.drop_last(), i);
    }
}

/// Nothing is counted twice and nothing is left out: where every call has a key, the rows of the
/// table together hold as many calls, and as much usage, as the calls themselves.
pub proof fn law_each_call_counts_once<G: Grouping>(
    rules: Seq<RuleView>,
    calls: Seq<CallView>,
    rows: Seq<(Seq<char>, Bucket)>,
)
    requires
        calls.len() <= u64::MAX,
        forall|i: int| 0 <= i < calls.len() ==> G::spec_key(#[trigger] calls[i]) is Some,
        ordered(rows),
        rows_map(rows) == buckets::<G>(rules, calls),
    ensures
        usage_of_rows(rows) == usage_sum(calls),
        calls_of_rows(rows) == calls.len(),
{
    assert forall|i: int| 0 <= i < rows.len() implies (#[trigger] rows[i]).1 == bucket_sum(
        rules,
        group::<G>(calls, rows[i].0),
    ) by {
        lemma_rows_map_at(rows, i);
    }
    assert forall|i: int| 0 <= i < calls.len() implies ({
        let key = G::spec_key(#[trigger] calls[i]);
        key is Some && has_key(rows, key->0)
    }) by {
        lemma_key_has_group::<G>(calls, i);
        let k = G::spec_key(calls[i])->0;
        assert(buckets::<G>(rules, calls).contains_key(k));
        assert(rows_map(rows).contains_key(k));
    }
    lemma_rows_sum::<G>(rules, calls, rows);
    lemma_all_are_members::<G>(calls, rows);
}

} // verus!
