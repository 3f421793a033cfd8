//! What stands in which column and in which file of an export.

use vstd::prelude::*;

use crate::aggregate::buckets;
use crate::aggregate::Bucket;
use crate::aggregate::ByActivity;
use crate::aggregate::ByDay;
use crate::aggregate::ByModel;
use crate::aggregate::ByProject;
use crate::aggregate::ByThread;
use crate::export::bucket_fields;
use crate::export::bucket_header;
use crate::export::bucket_lines;
use crate::export::call_fields;
use crate::export::call_header;
use crate::export::call_lines;
use crate::export::exported;
use crate::export::Figures;
use crate::export::FiguresView;
use crate::model::day_of;
use crate::model::CallView;
use crate::model::ModelConfidence;
use crate::model::ServiceTier;
use crate::model::SourceFormat;
use crate::outside::csv_line;
use crate::pricing::cost_of;
use crate::pricing::RuleView;
use crate::text::decimal_of;
use crate::text_map::rows_of;

verus! {

/// A row holds this text in the column that the header names so, where it has as many fields as the
/// header has names.
pub open spec fn in_column(
    header: Seq<Seq<char>>,
    row: Seq<Seq<char>>,
    name: Seq<char>,
    value: Seq<char>,
) -> bool {
    &&& header.len() == row.len()
    &&& exists|k: int| 0 <= k < header.len() && #[trigger] header[k] == name && row[k] == value
}

/// A text that is absent leaves its field empty.
pub open spec fn text_or_none(t: Option<Seq<char>>) -> Seq<char> {
    if t is Some {
        t->0
    } else {
        Seq::empty()
    }
}

/// Each field of a row of the table of calls is what the header names its column: the texts of the
/// call, its counts in decimal, and the names of its tier, its confidence and its format.
#[verifier::rlimit(60)]
pub proof fn law_call_columns_hold_what_they_name(
    c: CallView,
    rules: Seq<RuleView>,
    cost: Seq<char>,
)
    ensures
        ({
            let row = call_fields(c, rules, cost);
            &&& in_column(call_header(), row, "event_uid"@, c.event_uid)
            &&& in_column(call_header(), row, "response_id"@, text_or_none(c.response_id))
            &&& in_column(call_header(), row, "timestamp_utc"@, text_or_none(c.timestamp_utc))
            &&& in_column(call_header(), row, "day"@, day_of(c.timestamp_utc))
            &&& in_column(call_header(), row, "session_id"@, text_or_none(c.session_id))
            &&& in_column(call_header(), row, "thread_id"@, text_or_none(c.thread_id))
            &&& in_column(call_header(), row, "thread_title"@, text_or_none(c.thread_title))
            &&& in_column(call_header(), row, "turn_id"@, text_or_none(c.turn_id))
            &&& in_column(call_header(), row, "root_turn_id"@, text_or_none(c.root_turn_id))
            &&& in_column(call_header(), row, "model_slug"@, text_or_none(c.model_slug))
            &&& in_column(call_header(), row, "activity"@, text_or_none(c.activity))
            &&& in_column(call_header(), row, "parent_thread_id"@, text_or_none(c.parent_thread_id))
            &&& in_column(call_header(), row, "project_path"@, text_or_none(c.project_path))
            &&& in_column(call_header(), row, "input_tokens"@, decimal_of(c.usage.input_tokens as nat))
            &&& in_column(call_header(), row, "cached_input_tokens"@, decimal_of(c.usage.cached_input_tokens as nat))
            &&& in_column(call_header(), row, "cache_write_input_tokens"@, decimal_of(c.usage.cache_write_input_tokens as nat))
            &&& in_column(call_header(), row, "output_tokens"@, decimal_of(c.usage.output_tokens as nat))
            &&& in_column(call_header(), row, "reasoning_output_tokens"@, decimal_of(c.usage.reasoning_output_tokens as nat))
            &&& in_column(call_header(), row, "total_tokens"@, decimal_of(c.usage.total_tokens as nat))
            &&& in_column(call_header(), row, "source_file"@, c.source_file)
            &&& in_column(call_header(), row, "source_ordinal"@, decimal_of(c.source_ordinal as nat))
            &&& in_column(call_header(), row, "equivalent_cost_codex"@, cost)
            &&& c.model_confidence == ModelConfidence::Exact ==> in_column(call_header(), row, "model_confidence"@, "exact"@)
            &&& c.model_confidence == ModelConfidence::Inferred ==> in_column(call_header(), row, "model_confidence"@, "inferred"@)
            &&& c.model_confidence == ModelConfidence::Unknown ==> in_column(call_header(), row, "model_confidence"@, "unknown"@)
            &&& c.service_tier == ServiceTier::Fast ==> in_column(call_header(), row, "service_tier"@, "fast"@)
            &&& c.service_tier == ServiceTier::Standard ==> in_column(call_header(), row, "service_tier"@, "standard"@)
            &&& c.service_tier == ServiceTier::Unknown ==> in_column(call_header(), row, "service_tier"@, "unknown"@)
            &&& c.source_format == SourceFormat::TokenUsageRecord ==> in_column(call_header(), row, "source_format"@, "tokenusagerecord"@)
            &&& c.source_format == SourceFormat::LegacyTokenCount ==> in_column(call_header(), row, "source_format"@, "legacytokencount"@)
            &&& c.archived ==> in_column(call_header(), row, "archived"@, "1"@)
            &&& !c.archived ==> in_column(call_header(), row, "archived"@, "0"@)
            &&& cost_of(rules, c).long_context ==> in_column(call_header(), row, "long_context"@, "1"@)
            &&& !cost_of(rules, c).long_context ==> in_column(call_header(), row, "long_context"@, "0"@)
            &&& cost_of(rules, c).model_known ==> in_column(call_header(), row, "model_known"@, "1"@)
            &&& !cost_of(rules, c).model_known ==> in_column(call_header(), row, "model_known"@, "0"@)
        }),
{
    assert(call_header()[0] == "event_uid"@);
    assert(call_header()[1] == "response_id"@);
    assert(call_header()[2] == "timestamp_utc"@);
    assert(call_header()[3] == "day"@);
    assert(call_header()[4] == "session_id"@);
    assert(call_header()[5] == "thread_id"@);
    assert(call_header()[6] == "thread_title"@);
    assert(call_header()[7] == "turn_id"@);
    assert(call_header()[8] == "root_turn_id"@);
    assert(call_header()[9] == "model_slug"@);
    assert(call_header()[10] == "model_confidence"@);
    assert(call_header()[11] == "service_tier"@);
    assert(call_header()[12] == "activity"@);
    assert(call_header()[13] == "parent_thread_id"@);
    assert(call_header()[14] == "project_path"@);
    assert(call_header()[15] == "input_tokens"@);
    assert(call_header()[16] == "cached_input_tokens"@);
    assert(call_header()[17] == "cache_write_input_tokens"@);
    assert(call_header()[18] == "output_tokens"@);
    assert(call_header()[19] == "reasoning_output_tokens"@);
    assert(call_header()[20] == "total_tokens"@);
    assert(call_header()[21] == "source_format"@);
    assert(call_header()[22] == "source_file"@);
    assert(call_header()[23] == "source_ordinal"@);
    assert(call_header()[24] == "archived"@);
    assert(call_header()[25] == "equivalent_cost_codex"@);
    assert(call_header()[26] == "long_context"@);
    assert(call_header()[27] == "model_known"@);
}

/// Each field of a row of a table of buckets is what the header names its column: the counts of the
/// bucket in decimal, and its figures.
#[verifier::rlimit(60)]
pub proof fn law_bucket_columns_hold_what_they_name(
    label: Seq<char>,
    name: Seq<char>,
    b: Bucket,
    f: FiguresView,
)
    ensures
        ({
            let row = bucket_fields(label, name, b, f);
            &&& in_column(bucket_header(), row, "bucket"@, label + ":"@ + name)
            &&& in_column(bucket_header(), row, "calls"@, decimal_of(b.calls as nat))
            &&& in_column(bucket_header(), row, "input_tokens"@, decimal_of(b.usage.input_tokens as nat))
            &&& in_column(bucket_header(), row, "cached_input_tokens"@, decimal_of(b.usage.cached_input_tokens as nat))
            &&& in_column(bucket_header(), row, "cache_write_input_tokens"@, decimal_of(b.usage.cache_write_input_tokens as nat))
            &&& b.usage.cached_input_tokens + b.usage.cache_write_input_tokens
                <= b.usage.input_tokens ==> in_column(
                bucket_header(),
                row,
                "ordinary_input_tokens"@,
                decimal_of(
                    (b.usage.input_tokens - b.usage.cached_input_tokens
                        - b.usage.cache_write_input_tokens) as nat,
                ),
            )
            &&& b.usage.cached_input_tokens + b.usage.cache_write_input_tokens
                > b.usage.input_tokens ==> in_column(
                bucket_header(),
                row,
                "ordinary_input_tokens"@,
                decimal_of(0),
            )
            &&& in_column(bucket_header(), row, "output_tokens"@, decimal_of(b.usage.output_tokens as nat))
            &&& in_column(bucket_header(), row, "reasoning_output_tokens"@, decimal_of(b.usage.reasoning_output_tokens as nat))
            &&& in_column(bucket_header(), row, "cache_hit_percent"@, f.cache_hit_percent)
            &&& in_column(bucket_header(), row, "equivalent_cost_codex"@, f.equivalent_cost)
            &&& in_column(bucket_header(), row, "cost_without_cache"@, f.cost_without_cache)
            &&& in_column(bucket_header(), row, "cache_savings"@, f.cache_savings)
            &&& in_column(bucket_header(), row, "cache_savings_percent"@, f.cache_savings_percent)
            &&& in_column(bucket_header(), row, "unknown_model_tokens"@, decimal_of(b.unknown_model_tokens as nat))
            &&& in_column(bucket_header(), row, "long_context_calls"@, decimal_of(b.long_context_calls as nat))
        }),
{
    assert(bucket_header()[0] == "bucket"@);
    assert(bucket_header()[1] == "calls"@);
    assert(bucket_header()[2] == "input_tokens"@);
    assert(bucket_header()[3] == "cached_input_tokens"@);
    assert(bucket_header()[4] == "cache_write_input_tokens"@);
    assert(bucket_header()[5] == "ordinary_input_tokens"@);
    assert(bucket_header()[6] == "output_tokens"@);
    assert(bucket_header()[7] == "reasoning_output_tokens"@);
    assert(bucket_header()[8] == "cache_hit_percent"@);
    assert(bucket_header()[9] == "equivalent_cost_codex"@);
    assert(bucket_header()[10] == "cost_without_cache"@);
    assert(bucket_header()[11] == "cache_savings"@);
    assert(bucket_header()[12] == "cache_savings_percent"@);
    assert(bucket_header()[13] == "unknown_model_tokens"@);
    assert(bucket_header()[14] == "long_context_calls"@);
}

/// The table of calls starts with its header; one more call, with its cost, adds its line at the
/// end.
pub proof fn law_each_call_has_its_line(
    calls: Seq<CallView>,
    rules: Seq<RuleView>,
    costs: Seq<Seq<char>>,
    c: CallView,
    cost: Seq<char>,
)
    ensures
        call_lines(Seq::<CallView>::empty(), rules, costs) == csv_line(call_header()),
        call_lines(calls.push(c), rules, costs.push(cost)) == call_lines(calls, rules, costs)
            + csv_line(call_fields(c, rules, cost)),
{
    assert(calls.push(c).drop_last() =~= calls);
    assert(costs.push(cost).drop_last() =~= costs);
}

/// A table of buckets starts with its header; one more bucket adds its line at the end, with the
/// figures under its name.
pub proof fn law_each_bucket_has_its_line(
    label: Seq<char>,
    rows: Seq<(Seq<char>, Bucket)>,
    figures: Map<Seq<char>, FiguresView>,
    name: Seq<char>,
    b: Bucket,
)
    ensures
        bucket_lines(label, Seq::<(Seq<char>, Bucket)>::empty(), figures) == csv_line(
            bucket_header(),
        ),
        figures.contains_key(name) ==> bucket_lines(label, rows.push((name, b)), figures)
            == bucket_lines(label, rows, figures) + csv_line(
            bucket_fields(label, name, b, figures[name]),
        ),
        bucket_lines(label, rows, figures).len() < bucket_lines(
            label,
            rows.push((name, b)),
            figures,
        ).len(),
{
    assert(rows.push((name, b)).drop_last() =~= rows);
    let row = bucket_fields(label, name, b, crate::export::figures_at(figures, name));
    lemma_line_is_not_empty(row);
}

proof fn lemma_line_is_not_empty(row: Seq<Seq<char>>)
    ensures
        csv_line(row).len() > 0,
{
    let t = crate::outside::csv_fields(row);
    let line = if t.len() == 0 {
        seq!['"', '"', '\n']
    } else {
        t.push('\n')
    };
    let bytes = vstd::utf8::encode_utf8(line);
    vstd::utf8::encode_utf8_decode_utf8(line);
    if bytes.len() == 0 {
        assert(bytes =~= vstd::utf8::encode_utf8(Seq::<char>::empty()));
        vstd::utf8::encode_utf8_decode_utf8(Seq::<char>::empty());
    }
}

/// A file of this name holds these bytes.
pub open spec fn holds(files: Seq<crate::export::CsvFileView>, name: Seq<char>, bytes: Seq<u8>) -> bool {
    exists|i: int|
        0 <= i < files.len() && (#[trigger] files[i]).name == name && files[i].bytes == bytes
}

/// An export is six files: one for each breakdown, under its name and with its own rows and figures,
/// and one with all calls.
pub proof fn law_each_breakdown_has_its_file(
    calls: Seq<CallView>,
    rules: Seq<RuleView>,
    figures: Figures,
)
    ensures
        ({
            let files = exported(calls, rules, figures);
            &&& files.len() == 6
            &&& holds(
                files,
                "by-day.csv"@,
                bucket_lines(
                    "by-day"@,
                    rows_of(buckets::<ByDay>(rules, calls)),
                    figures.by_day@,
                ),
            )
            &&& holds(
                files,
                "by-model.csv"@,
                bucket_lines(
                    "by-model"@,
                    rows_of(buckets::<ByModel>(rules, calls)),
                    figures.by_model@,
                ),
            )
            &&& holds(
                files,
                "by-project.csv"@,
                bucket_lines(
                    "by-project"@,
                    rows_of(buckets::<ByProject>(rules, calls)),
                    figures.by_project@,
                ),
            )
            &&& holds(
                files,
                "by-activity.csv"@,
                bucket_lines(
                    "by-activity"@,
                    rows_of(buckets::<ByActivity>(rules, calls)),
                    figures.by_activity@,
                ),
            )
            &&& holds(
                files,
                "by-thread.csv"@,
                bucket_lines(
                    "by-thread"@,
                    rows_of(buckets::<ByThread>(rules, calls)),
                    figures.by_thread@,
                ),
            )
            &&& holds(files, "calls.csv"@, call_lines(calls, rules, figures.call_costs.deep_view()))
        }),
{
    let files = exported(calls, rules, figures);
    assert(files[0].name == "by-day.csv"@);
    assert(files[1].name == "by-model.csv"@);
    assert(files[2].name == "by-project.csv"@);
    assert(files[3].name == "by-activity.csv"@);
    assert(files[4].name == "by-thread.csv"@);
    assert(files[5].name == "calls.csv"@);
}

/// A bucket without figures has empty texts in their columns.
pub proof fn law_missing_figures_are_empty(figures: Map<Seq<char>, FiguresView>, k: Seq<char>)
    ensures
        figures.contains_key(k) ==> crate::export::figures_at(figures, k) == figures[k],
        !figures.contains_key(k) ==> ({
            let f = crate::export::figures_at(figures, k);
            f.cache_hit_percent.len() == 0 && f.equivalent_cost.len() == 0
                && f.cost_without_cache.len() == 0 && f.cache_savings.len() == 0
                && f.cache_savings_percent.len() == 0
        }),
{
}

} // verus!
