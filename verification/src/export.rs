//! The counts and the calls as CSV files.
//!
//! Amounts and percentages are fractions: they come in as texts, and stand where they belong.

use vstd::prelude::*;

use crate::aggregate;
use crate::aggregate::buckets;
use crate::aggregate::Bucket;
use crate::aggregate::Buckets;
use crate::aggregate::ByActivity;
use crate::aggregate::ByDay;
use crate::aggregate::ByModel;
use crate::aggregate::ByProject;
use crate::aggregate::ByThread;
use crate::line::or_empty;
use crate::model::day_of;
use crate::model::CallView;
use crate::model::InferenceCall;
use crate::model::SourceFormat;
use crate::outside;
use crate::outside::csv_line;
use crate::pricing::cost_of;
use crate::pricing::PricingEngine;
use crate::pricing::RuleView;
use crate::text;
use crate::text::decimal_of;
use crate::text_map::lemma_rows_of;
use crate::text_map::rows_of;
use crate::text_map::TextMap;

verus! {

/// The fractions of a bucket, as texts.
#[derive(Debug)]
pub struct BucketFigures {
    pub cache_hit_percent: String,
    pub equivalent_cost: String,
    pub cost_without_cache: String,
    pub cache_savings: String,
    pub cache_savings_percent: String,
}

/// What [`BucketFigures`] say.
pub struct FiguresView {
    pub cache_hit_percent: Seq<char>,
    pub equivalent_cost: Seq<char>,
    pub cost_without_cache: Seq<char>,
    pub cache_savings: Seq<char>,
    pub cache_savings_percent: Seq<char>,
}

impl DeepView for BucketFigures {
    type V = FiguresView;

    open spec fn deep_view(&self) -> FiguresView {
        FiguresView {
            cache_hit_percent: self.cache_hit_percent@,
            equivalent_cost: self.equivalent_cost@,
            cost_without_cache: self.cost_without_cache@,
            cache_savings: self.cache_savings@,
            cache_savings_percent: self.cache_savings_percent@,
        }
    }
}

/// The fractions of all tables, each bucket under its key, and the cost of each call.
pub struct Figures {
    pub by_day: TextMap<BucketFigures>,
    pub by_model: TextMap<BucketFigures>,
    pub by_project: TextMap<BucketFigures>,
    pub by_activity: TextMap<BucketFigures>,
    pub by_thread: TextMap<BucketFigures>,
    pub call_costs: Vec<String>,
}

/// A file with its name and its bytes.
#[derive(Debug)]
pub struct CsvFile {
    pub name: String,
    pub bytes: Vec<u8>,
}

/// What a [`CsvFile`] holds.
#[verifier::ext_equal]
pub struct CsvFileView {
    pub name: Seq<char>,
    pub bytes: Seq<u8>,
}

impl DeepView for CsvFile {
    type V = CsvFileView;

    open spec fn deep_view(&self) -> CsvFileView {
        CsvFileView { name: self.name@, bytes: self.bytes@ }
    }
}

/// The figures under a key; empty texts where there are none.
pub open spec fn figures_at(m: Map<Seq<char>, FiguresView>, k: Seq<char>) -> FiguresView {
    if m.contains_key(k) {
        m[k]
    } else {
        FiguresView {
            cache_hit_percent: Seq::empty(),
            equivalent_cost: Seq::empty(),
            cost_without_cache: Seq::empty(),
            cache_savings: Seq::empty(),
            cache_savings_percent: Seq::empty(),
        }
    }
}

/// The names of the columns of a table of buckets.
pub open spec fn bucket_header() -> Seq<Seq<char>> {
    seq![
        "bucket"@,
        "calls"@,
        "input_tokens"@,
        "cached_input_tokens"@,
        "cache_write_input_tokens"@,
        "ordinary_input_tokens"@,
        "output_tokens"@,
        "reasoning_output_tokens"@,
        "cache_hit_percent"@,
        "equivalent_cost_codex"@,
        "cost_without_cache"@,
        "cache_savings"@,
        "cache_savings_percent"@,
        "unknown_model_tokens"@,
        "long_context_calls"@,
    ]
}

/// The row of a bucket.
pub open spec fn bucket_fields(
    label: Seq<char>,
    name: Seq<char>,
    b: Bucket,
    f: FiguresView,
) -> Seq<Seq<char>> {
    seq![
        label + ":"@ + name,
        decimal_of(b.calls as nat),
        decimal_of(b.usage.input_tokens as nat),
        decimal_of(b.usage.cached_input_tokens as nat),
        decimal_of(b.usage.cache_write_input_tokens as nat),
        decimal_of(b.usage.spec_ordinary_input() as nat),
        decimal_of(b.usage.output_tokens as nat),
        decimal_of(b.usage.reasoning_output_tokens as nat),
        f.cache_hit_percent,
        f.equivalent_cost,
        f.cost_without_cache,
        f.cache_savings,
        f.cache_savings_percent,
        decimal_of(b.unknown_model_tokens as nat),
        decimal_of(b.long_context_calls as nat),
    ]
}

/// The lines of a table of buckets.
pub open spec fn bucket_lines(
    label: Seq<char>,
    rows: Seq<(Seq<char>, Bucket)>,
    figures: Map<Seq<char>, FiguresView>,
) -> Seq<u8>
    decreases rows.len(),
{
    if rows.len() == 0 {
        csv_line(bucket_header())
    } else {
        let (name, b) = rows.last();
        bucket_lines(label, rows.drop_last(), figures) + csv_line(
            bucket_fields(label, name, b, figures_at(figures, name)),
        )
    }
}

/// The names of the columns of the table of calls.
pub open spec fn call_header() -> Seq<Seq<char>> {
    seq![
        "event_uid"@,
        "response_id"@,
        "timestamp_utc"@,
        "day"@,
        "session_id"@,
        "thread_id"@,
        "thread_title"@,
        "turn_id"@,
        "root_turn_id"@,
        "model_slug"@,
        "model_confidence"@,
        "service_tier"@,
        "activity"@,
        "parent_thread_id"@,
        "project_path"@,
        "input_tokens"@,
        "cached_input_tokens"@,
        "cache_write_input_tokens"@,
        "output_tokens"@,
        "reasoning_output_tokens"@,
        "total_tokens"@,
        "source_format"@,
        "source_file"@,
        "source_ordinal"@,
        "archived"@,
        "equivalent_cost_codex"@,
        "long_context"@,
        "model_known"@,
    ]
}

/// A truth value as a digit.
pub open spec fn digit_of(b: bool) -> Seq<char> {
    if b {
        "1"@
    } else {
        "0"@
    }
}

/// The name of a format in the table of calls.
pub open spec fn format_name(f: SourceFormat) -> Seq<char> {
    match f {
        SourceFormat::TokenUsageRecord => "tokenusagerecord"@,
        SourceFormat::LegacyTokenCount => "legacytokencount"@,
    }
}

/// The row of a call.
pub open spec fn call_fields(c: CallView, rules: Seq<RuleView>, cost: Seq<char>) -> Seq<Seq<char>> {
    seq![
        c.event_uid,
        or_empty(c.response_id),
        or_empty(c.timestamp_utc),
        day_of(c.timestamp_utc),
        or_empty(c.session_id),
        or_empty(c.thread_id),
        or_empty(c.thread_title),
        or_empty(c.turn_id),
        or_empty(c.root_turn_id),
        or_empty(c.model_slug),
        c.model_confidence.label(),
        c.service_tier.label(),
        or_empty(c.activity),
        or_empty(c.parent_thread_id),
        or_empty(c.project_path),
        decimal_of(c.usage.input_tokens as nat),
        decimal_of(c.usage.cached_input_tokens as nat),
        decimal_of(c.usage.cache_write_input_tokens as nat),
        decimal_of(c.usage.output_tokens as nat),
        decimal_of(c.usage.reasoning_output_tokens as nat),
        decimal_of(c.usage.total_tokens as nat),
        format_name(c.source_format),
        c.source_file,
        decimal_of(c.source_ordinal as nat),
        digit_of(c.archived),
        cost,
        digit_of(cost_of(rules, c).long_context),
        digit_of(cost_of(rules, c).model_known),
    ]
}

/// The lines of the table of calls.
pub open spec fn call_lines(
    calls: Seq<CallView>,
    rules: Seq<RuleView>,
    costs: Seq<Seq<char>>,
) -> Seq<u8>
    decreases calls.len(),
{
    if calls.len() == 0 {
        csv_line(call_header())
    } else {
        call_lines(calls.drop_last(), rules, costs.drop_last()) + csv_line(
            call_fields(calls.last(), rules, costs.last()),
        )
    }
}

/// A text of its own for each name.
fn own(names: Vec<&str>) -> (r: Vec<String>)
    ensures
        r@.len() == names@.len(),
        forall|i: int| 0 <= i < names@.len() ==> (#[trigger] r@[i])@ == names@[i]@,
{
    let n: usize = names.len();
    let mut r: Vec<String> = Vec::new();
    let mut i: usize = 0;
    while i < n
        invariant
            n == names@.len(),
            i <= n,
            r@.len() == i,
            forall|j: int| 0 <= j < i ==> (#[trigger] r@[j])@ == names@[j]@,
        decreases n - i,
    {
        r.push(names[i].to_owned());
        i += 1;
    }
    r
}

fn write_bucket_header() -> (r: Vec<u8>)
    ensures
        r@ == csv_line(bucket_header()),
{
    let fields = own(
        vec![
            "bucket",
            "calls",
            "input_tokens",
            "cached_input_tokens",
            "cache_write_input_tokens",
            "ordinary_input_tokens",
            "output_tokens",
            "reasoning_output_tokens",
            "cache_hit_percent",
            "equivalent_cost_codex",
            "cost_without_cache",
            "cache_savings",
            "cache_savings_percent",
            "unknown_model_tokens",
            "long_context_calls",
        ],
    );
    assert(fields.deep_view() =~= bucket_header());
    outside::write_csv_line(&fields)
}

fn write_bucket(
    label: &str,
    name: &str,
    b: &Bucket,
    figures: &TextMap<BucketFigures>,
) -> (r: Vec<u8>)
    ensures
        r@ == csv_line(bucket_fields(label@, name@, *b, figures_at(figures@, name@))),
{
    let mut full = text::join(label, ":");
    full.append(name);
    let (hit, cost, plain, savings, share) = match figures.get(name) {
        Some(f) => (
            f.cache_hit_percent.clone(),
            f.equivalent_cost.clone(),
            f.cost_without_cache.clone(),
            f.cache_savings.clone(),
            f.cache_savings_percent.clone(),
        ),
        None => (String::new(), String::new(), String::new(), String::new(), String::new()),
    };
    let fields = vec![
        full,
        text::decimal(b.calls),
        text::decimal(b.usage.input_tokens),
        text::decimal(b.usage.cached_input_tokens),
        text::decimal(b.usage.cache_write_input_tokens),
        text::decimal(b.usage.ordinary_input()),
        text::decimal(b.usage.output_tokens),
        text::decimal(b.usage.reasoning_output_tokens),
        hit,
        cost,
        plain,
        savings,
        share,
        text::decimal(b.unknown_model_tokens),
        text::decimal(b.long_context_calls),
    ];
    assert(fields.deep_view() =~= bucket_fields(label@, name@, *b, figures_at(figures@, name@)));
    outside::write_csv_line(&fields)
}

/// Writes a table of buckets, its rows in the order of their keys.
pub fn bucket_csv(label: &str, table: &Buckets, figures: &TextMap<BucketFigures>) -> (r: Vec<u8>)
    ensures
        r@ == bucket_lines(label@, rows_of(table@), figures@),
{
    let n: usize = table.len();
    let ghost rows = table.rows();
    proof {
        lemma_rows_of(rows);
    }
    let mut out = write_bucket_header();
    let mut i: usize = 0;
    while i < n
        invariant
            n == rows.len(),
            rows == table.rows(),
            i <= n,
            out@ == bucket_lines(label@, rows.take(i as int), figures@),
        decreases n - i,
    {
        let name = table.key_at(i);
        let b = table.value_at(i);
        assert(rows.take(i + 1).drop_last() =~= rows.take(i as int));
        assert(rows.take(i + 1).last() == (name@, *b));
        let mut line = write_bucket(label, name.as_str(), b, figures);
        out.append(&mut line);
        i += 1;
    }
    assert(rows.take(n as int) =~= rows);
    out
}

fn write_call_header() -> (r: Vec<u8>)
    ensures
        r@ == csv_line(call_header()),
{
    let fields = own(
        vec![
            "event_uid",
            "response_id",
            "timestamp_utc",
            "day",
            "session_id",
            "thread_id",
            "thread_title",
            "turn_id",
            "root_turn_id",
            "model_slug",
            "model_confidence",
            "service_tier",
            "activity",
            "parent_thread_id",
            "project_path",
            "input_tokens",
            "cached_input_tokens",
            "cache_write_input_tokens",
            "output_tokens",
            "reasoning_output_tokens",
            "total_tokens",
            "source_format",
            "source_file",
            "source_ordinal",
            "archived",
            "equivalent_cost_codex",
            "long_context",
            "model_known",
        ],
    );
    assert(fields.deep_view() =~= call_header());
    outside::write_csv_line(&fields)
}

fn text_or_empty(t: &Option<String>) -> (r: String)
    ensures
        r@ == or_empty(t.deep_view()),
{
    match t {
        Some(s) => s.clone(),
        None => String::new(),
    }
}

fn digit_text(b: bool) -> (r: String)
    ensures
        r@ == digit_of(b),
{
    if b {
        "1".to_owned()
    } else {
        "0".to_owned()
    }
}

fn format_text(f: SourceFormat) -> (r: String)
    ensures
        r@ == format_name(f),
{
    match f {
        SourceFormat::TokenUsageRecord => "tokenusagerecord".to_owned(),
        SourceFormat::LegacyTokenCount => "legacytokencount".to_owned(),
    }
}

fn write_call(c: &InferenceCall, engine: &PricingEngine, cost: &str) -> (r: Vec<u8>)
    ensures
        r@ == csv_line(call_fields(c@, engine.codex.rules.deep_view(), cost@)),
{
    let cd = engine.cost_codex(c);
    let fields = vec![
        c.event_uid.clone(),
        text_or_empty(&c.response_id),
        text_or_empty(&c.timestamp_utc),
        c.day().to_owned(),
        text_or_empty(&c.session_id),
        text_or_empty(&c.thread_id),
        text_or_empty(&c.thread_title),
        text_or_empty(&c.turn_id),
        text_or_empty(&c.root_turn_id),
        text_or_empty(&c.model_slug),
        c.model_confidence.as_str().to_owned(),
        c.service_tier.as_str().to_owned(),
        text_or_empty(&c.activity),
        text_or_empty(&c.parent_thread_id),
        text_or_empty(&c.project_path),
        text::decimal(c.usage.input_tokens),
        text::decimal(c.usage.cached_input_tokens),
        text::decimal(c.usage.cache_write_input_tokens),
        text::decimal(c.usage.output_tokens),
        text::decimal(c.usage.reasoning_output_tokens),
        text::decimal(c.usage.total_tokens),
        format_text(c.source_format),
        c.source_file.clone(),
        text::decimal(c.source_ordinal),
        digit_text(c.archived),
        cost.to_owned(),
        digit_text(cd.long_context),
        digit_text(cd.model_known),
    ];
    assert(fields.deep_view() =~= call_fields(c@, engine.codex.rules.deep_view(), cost@));
    outside::write_csv_line(&fields)
}

/// Writes the table of calls, with the cost of each.
pub fn calls_csv(calls: &Vec<InferenceCall>, engine: &PricingEngine, costs: &Vec<String>) -> (r: Vec<
    u8,
>)
    requires
        calls@.len() == costs@.len(),
    ensures
        r@ == call_lines(calls.deep_view(), engine.codex.rules.deep_view(), costs.deep_view()),
{
    let ghost all = calls.deep_view();
    let ghost prices = costs.deep_view();
    let ghost rules = engine.codex.rules.deep_view();
    let n: usize = calls.len();
    let mut out = write_call_header();
    let mut i: usize = 0;
    while i < n
        invariant
            n == calls@.len(),
            n == costs@.len(),
            all == calls.deep_view(),
            prices == costs.deep_view(),
            rules == engine.codex.rules.deep_view(),
            i <= n,
            out@ == call_lines(all.take(i as int), rules, prices.take(i as int)),
        decreases n - i,
    {
        assert(all[i as int] == calls@[i as int]@);
        assert(prices[i as int] == costs@[i as int]@);
        assert(all.take(i + 1).drop_last() =~= all.take(i as int));
        assert(prices.take(i + 1).drop_last() =~= prices.take(i as int));
        let mut line = write_call(&calls[i], engine, costs[i].as_str());
        out.append(&mut line);
        i += 1;
    }
    assert(all.take(n as int) =~= all);
    assert(prices.take(n as int) =~= prices);
    out
}

/// The six files of an export.
pub open spec fn exported(
    calls: Seq<CallView>,
    rules: Seq<RuleView>,
    figures: Figures,
) -> Seq<CsvFileView> {
    seq![
        CsvFileView {
            name: "by-day.csv"@,
            bytes: bucket_lines(
                "by-day"@,
                rows_of(buckets::<ByDay>(rules, calls)),
                figures.by_day@,
            ),
        },
        CsvFileView {
            name: "by-model.csv"@,
            bytes: bucket_lines(
                "by-model"@,
                rows_of(buckets::<ByModel>(rules, calls)),
                figures.by_model@,
            ),
        },
        CsvFileView {
            name: "by-project.csv"@,
            bytes: bucket_lines(
                "by-project"@,
                rows_of(buckets::<ByProject>(rules, calls)),
                figures.by_project@,
            ),
        },
        CsvFileView {
            name: "by-activity.csv"@,
            bytes: bucket_lines(
                "by-activity"@,
                rows_of(buckets::<ByActivity>(rules, calls)),
                figures.by_activity@,
            ),
        },
        CsvFileView {
            name: "by-thread.csv"@,
            bytes: bucket_lines(
                "by-thread"@,
                rows_of(buckets::<ByThread>(rules, calls)),
                figures.by_thread@,
            ),
        },
        CsvFileView {
            name: "calls.csv"@,
            bytes: call_lines(calls, rules, figures.call_costs.deep_view()),
        },
    ]
}

/// Writes the counts by day, model, project, activity and thread, and the calls.
pub fn export_csv(calls: &Vec<InferenceCall>, engine: &PricingEngine, figures: &Figures) -> (r: Vec<
    CsvFile,
>)
    requires
        calls@.len() == figures.call_costs@.len(),
    ensures
        r.deep_view() == exported(calls.deep_view(), engine.codex.rules.deep_view(), *figures),
{
    let day = aggregate::by_day(calls, engine);
    let model = aggregate::by_model(calls, engine);
    let project = aggregate::by_project(calls, engine);
    let activity = aggregate::by_activity(calls, engine);
    let thread = aggregate::by_thread(calls, engine);
    let r = vec![
        CsvFile {
            name: "by-day.csv".to_owned(),
            bytes: bucket_csv("by-day", &day, &figures.by_day),
        },
        CsvFile {
            name: "by-model.csv".to_owned(),
            bytes: bucket_csv("by-model", &model, &figures.by_model),
        },
        CsvFile {
            name: "by-project.csv".to_owned(),
            bytes: bucket_csv("by-project", &project, &figures.by_project),
        },
        CsvFile {
            name: "by-activity.csv".to_owned(),
            bytes: bucket_csv("by-activity", &activity, &figures.by_activity),
        },
        CsvFile {
            name: "by-thread.csv".to_owned(),
            bytes: bucket_csv("by-thread", &thread, &figures.by_thread),
        },
        CsvFile {
            name: "calls.csv".to_owned(),
            bytes: calls_csv(calls, engine, &figures.call_costs),
        },
    ];
    assert(r.deep_view() =~= exported(
        calls.deep_view(),
        engine.codex.rules.deep_view(),
        *figures,
    ));
    r
}

} // verus!
