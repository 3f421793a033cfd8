//! What the lines of the reports tell, and when.

use vstd::prelude::*;

use crate::aggregate::bucket_sum;
use crate::aggregate::buckets;
use crate::aggregate::calls_with_confidence;
use crate::aggregate::input_under;
use crate::aggregate::AnomalyView;
use crate::aggregate::Bucket;
use crate::aggregate::ByActivity;
use crate::aggregate::ByDay;
use crate::aggregate::ByModel;
use crate::aggregate::ByProject;
use crate::anomaly_laws::law_what_is_unusual;
use crate::import::ImportReport;
use crate::model::usage_sum;
use crate::model::CallView;
use crate::model::ModelConfidence;
use crate::model::ServiceTier;
use crate::model::TokenUsage;
use crate::pricing::calls_in_tier;
use crate::pricing::RuleView;
use crate::report::activities_text;
use crate::report::anomalies_in;
use crate::report::anomaly_text;
use crate::report::anomaly_texts;
use crate::report::breakdown_text;
use crate::report::catalogs_text;
use crate::report::compared_text;
use crate::report::costs_text;
use crate::report::doctor_text;
use crate::report::headed;
use crate::report::held_text;
use crate::report::import_text;
use crate::report::int_text;
use crate::report::left_aligned;
use crate::report::met_text;
use crate::report::right_aligned;
use crate::report::row_text;
use crate::report::scan_text;
use crate::report::shares_of;
use crate::report::status_of;
use crate::report::summary_text;
use crate::report::table_text;
use crate::report::threads_text;
use crate::report::tier_note;
use crate::report::totals_text;
use crate::report::Breakdown;
use crate::report::Held;
use crate::report::Shares;
use crate::report::ShownCosts;
use crate::report::ShownSummary;
use crate::report::ShownTotals;
use crate::report::ShownView;
use crate::scan::DiagnosticsView;
use crate::text::decimal_of;
use crate::text_map::rows_of;
use crate::ui::thread_label_of;
use crate::ui::ThreadRowView;

verus! {

/// Some lines stand among others, one behind the other.
pub open spec fn stand_among(lines: Seq<Seq<char>>, part: Seq<Seq<char>>) -> bool {
    exists|at: int|
        0 <= at && at + part.len() <= lines.len() && #[trigger] lines.subrange(
            at,
            (at + part.len()) as int,
        ) == part
}

/// Blanks fill a text up to its width, before or behind it, and never cut it.
pub proof fn law_alignment_only_adds_blanks(t: Seq<char>, width: nat)
    ensures
        ({
            let (l, r) = (left_aligned(t, width), right_aligned(t, width));
            let n = t.len() as int;
            &&& t.len() >= width ==> l == t && r == t
            &&& t.len() < width ==> l.len() == width && r.len() == width
            &&& l.len() >= n && l.take(n) == t
            &&& forall|i: int| n <= i < l.len() ==> #[trigger] l[i] == ' '
            &&& r.len() >= n && r.skip(r.len() - n) == t
            &&& forall|i: int| 0 <= i < r.len() - n ==> #[trigger] r[i] == ' '
        }),
{
    let (l, r) = (left_aligned(t, width), right_aligned(t, width));
    let n = t.len() as int;
    assert(l.take(n) =~= t);
    assert(r.skip(r.len() - n) =~= t);
}

/// The report on an import tells each count; what was pruned, repaired or priced anew has a line if
/// and only if there is any.
pub proof fn law_import_report_tells_each_count(rep: ImportReport)
    ensures
        ({
            let lines = import_text(rep);
            &&& lines.contains("Import termine en "@ + decimal_of(rep.duration_ms as nat) + " ms"@)
            &&& lines.contains("  Fichiers vus       "@ + decimal_of(rep.files_seen as nat))
            &&& lines.contains(
                "  Fichiers ignores   "@ + decimal_of(rep.files_skipped as nat)
                    + " (checkpoint a jour)"@,
            )
            &&& lines.contains("  Fichiers modifies  "@ + decimal_of(rep.files_changed as nat))
            &&& lines.contains("  Octets lus         "@ + int_text(rep.bytes_read))
            &&& lines.contains("  Appels insérés     "@ + int_text(rep.calls_inserted))
            &&& lines.contains("  Doublons ignores   "@ + int_text(rep.duplicates_ignored))
            &&& lines.contains("  Erreurs parsing    "@ + decimal_of(rep.parse_errors as nat))
            &&& lines.contains(
                "  Threads enrichis   "@ + decimal_of(rep.threads_enriched as nat) + " ("@
                    + int_text(rep.calls_enriched) + " calls touches)"@,
            )
            &&& rep.legacy_pruned > 0 ==> lines.contains(
                "  Legacy purges      "@ + int_text(rep.legacy_pruned)
                    + " (session deja couverte en moderne)"@,
            )
            &&& rep.tiers_repaired > 0 ==> lines.contains(
                "  Tiers repares      "@ + int_text(rep.tiers_repaired),
            )
            &&& rep.repriced ==> lines.contains(
                "  Re-pricing         "@ + decimal_of(rep.priced_calls as nat)
                    + " appels valorises"@,
            )
            &&& lines.len() == 9 + (if rep.legacy_pruned > 0 {
                1int
            } else {
                0
            }) + (if rep.tiers_repaired > 0 {
                1int
            } else {
                0
            }) + (if rep.repriced {
                1int
            } else {
                0
            })
        }),
{
    let lines = import_text(rep);
    let k: int = if rep.legacy_pruned > 0 {
        8
    } else {
        7
    };
    let j: int = if rep.tiers_repaired > 0 {
        k + 3
    } else {
        k + 2
    };
    assert(lines[0] == "Import termine en "@ + decimal_of(rep.duration_ms as nat) + " ms"@);
    assert(lines[1] == "  Fichiers vus       "@ + decimal_of(rep.files_seen as nat));
    assert(lines[2] == "  Fichiers ignores   "@ + decimal_of(rep.files_skipped as nat)
        + " (checkpoint a jour)"@);
    assert(lines[3] == "  Fichiers modifies  "@ + decimal_of(rep.files_changed as nat));
    assert(lines[4] == "  Octets lus         "@ + int_text(rep.bytes_read));
    assert(lines[5] == "  Appels insérés     "@ + int_text(rep.calls_inserted));
    assert(lines[6] == "  Doublons ignores   "@ + int_text(rep.duplicates_ignored));
    if rep.legacy_pruned > 0 {
        assert(lines[7] == "  Legacy purges      "@ + int_text(rep.legacy_pruned)
            + " (session deja couverte en moderne)"@);
    }
    assert(lines[k] == "  Erreurs parsing    "@ + decimal_of(rep.parse_errors as nat));
    assert(lines[k + 1] == "  Threads enrichis   "@ + decimal_of(rep.threads_enriched as nat) + " ("@
        + int_text(rep.calls_enriched) + " calls touches)"@);
    if rep.tiers_repaired > 0 {
        assert(lines[k + 2] == "  Tiers repares      "@ + int_text(rep.tiers_repaired));
    }
    if rep.repriced {
        assert(lines[j] == "  Re-pricing         "@ + decimal_of(rep.priced_calls as nat)
            + " appels valorises"@);
    }
}

/// The totals tell the calls and the tokens of each kind; the share of the cache has a line if and
/// only if there is input.
pub proof fn law_totals_tell_each_kind(usage: TokenUsage, calls: u64, shown: ShownTotals)
    ensures
        ({
            let lines = totals_text(usage, calls, shown);
            &&& lines.contains("Calls        "@ + int_text(calls))
            &&& lines.contains("Input        "@ + shown.input@)
            &&& lines.contains("Cached       "@ + shown.cached@)
            &&& lines.contains("Non cached   "@ + shown.ordinary@)
            &&& lines.contains("Output       "@ + shown.output@)
            &&& usage.input_tokens > 0 ==> lines.contains("Cache hit    "@ + shown.hit@ + " %"@)
            &&& lines.len() == 5 + (if usage.input_tokens > 0 {
                1int
            } else {
                0
            })
        }),
{
    let lines = totals_text(usage, calls, shown);
    assert(lines[0] == "Calls        "@ + int_text(calls));
    assert(lines[1] == "Input        "@ + shown.input@);
    assert(lines[2] == "Cached       "@ + shown.cached@);
    assert(lines[3] == "Non cached   "@ + shown.ordinary@);
    assert(lines[4] == "Output       "@ + shown.output@);
    if usage.input_tokens > 0 {
        assert(lines[5] == "Cache hit    "@ + shown.hit@ + " %"@);
    }
}

/// The lines on costs tell the costs; calls without a price, models that were not found exactly and
/// the fast tier each have a line if and only if there are any.
pub proof fn law_costs_tell_what_there_is(total: Bucket, shares: Shares, shown: ShownCosts)
    ensures
        ({
            let lines = costs_text(total, shares, shown);
            let unsure = shares.inferred > 0 || shares.unknown > 0;
            &&& lines.contains("Equivalent Codex   "@ + shown.equivalent@)
            &&& lines.contains("Sans cache         "@ + shown.without_cache@)
            &&& lines.contains(
                "Economie cache     "@ + shown.savings@ + " ("@ + shown.savings_share@ + ")"@,
            )
            &&& lines.contains("Confiance tarif    "@ + shown.confidence@ + " %"@)
            &&& total.unknown_model_calls > 0 ==> lines.contains(
                "Coût N/A           "@ + int_text(total.unknown_model_calls) + " appels / "@
                    + shown.unpriced@ + " tokens sans tarif connu"@,
            )
            &&& unsure ==> lines.contains(
                "Confiance modèle   exact "@ + decimal_of(shares.exact as nat) + " · inferred "@
                    + decimal_of(shares.inferred as nat) + " · unknown "@ + decimal_of(
                    shares.unknown as nat,
                ),
            )
            &&& shares.fast > 0 ==> lines.contains(
                "Fast mode          "@ + int_text(shares.fast)
                    + " appel(s) — multiplicateur fast appliqué"@,
            )
            &&& lines.len() == 4 + (if total.unknown_model_calls > 0 {
                1int
            } else {
                0
            }) + (if unsure {
                1int
            } else {
                0
            }) + (if shares.fast > 0 {
                1int
            } else {
                0
            })
        }),
{
    let lines = costs_text(total, shares, shown);
    let unsure = shares.inferred > 0 || shares.unknown > 0;
    let k: int = if total.unknown_model_calls > 0 {
        4
    } else {
        3
    };
    let j: int = if unsure {
        k + 1
    } else {
        k
    };
    assert(lines[0] == "Equivalent Codex   "@ + shown.equivalent@);
    assert(lines[1] == "Sans cache         "@ + shown.without_cache@);
    assert(lines[2] == "Economie cache     "@ + shown.savings@ + " ("@ + shown.savings_share@
        + ")"@);
    if total.unknown_model_calls > 0 {
        assert(lines[3] == "Coût N/A           "@ + int_text(total.unknown_model_calls)
            + " appels / "@ + shown.unpriced@ + " tokens sans tarif connu"@);
    }
    if unsure {
        assert(lines[k] == "Confiance modèle   exact "@ + decimal_of(shares.exact as nat)
            + " · inferred "@ + decimal_of(shares.inferred as nat) + " · unknown "@ + decimal_of(
            shares.unknown as nat,
        ));
    }
    assert(lines[j] == "Confiance tarif    "@ + shown.confidence@ + " %"@);
    if shares.fast > 0 {
        assert(lines[j + 1] == "Fast mode          "@ + int_text(shares.fast)
            + " appel(s) — multiplicateur fast appliqué"@);
    }
}

/// A text starts with another.
pub open spec fn starts_with(t: Seq<char>, start: Seq<char>) -> bool {
    t.len() >= start.len() && t.take(start.len() as int) == start
}

/// A text ends with another.
pub open spec fn ends_with(t: Seq<char>, end: Seq<char>) -> bool {
    t.len() >= end.len() && t.skip(t.len() - end.len()) == end
}

proof fn lemma_starts_longer(t: Seq<char>, more: Seq<char>, start: Seq<char>)
    requires
        starts_with(t, start),
    ensures
        starts_with(t + more, start),
{
    assert((t + more).take(start.len() as int) =~= t.take(start.len() as int));
}

proof fn lemma_starts_with_name(name: Seq<char>, width: nat)
    ensures
        starts_with("  "@ + left_aligned(name, width), "  "@ + name),
{
    law_alignment_only_adds_blanks(name, width);
    let cell = left_aligned(name, width);
    assert(cell =~= name + cell.skip(name.len() as int)) by {
        assert(cell.take(name.len() as int) == name);
        assert(cell =~= cell.take(name.len() as int) + cell.skip(name.len() as int));
    }
    assert(("  "@ + cell).take(("  "@ + name).len() as int) =~= "  "@ + name);
}

proof fn lemma_ends_with_four(
    front: Seq<char>,
    a: Seq<char>,
    b: Seq<char>,
    c: Seq<char>,
    d: Seq<char>,
    start: Seq<char>,
)
    requires
        starts_with(front, start),
    ensures
        ends_with(front + a + b + c + d, a + b + c + d),
        starts_with(front + a + b + c + d, start),
{
    let line = front + a + b + c + d;
    let end = a + b + c + d;
    assert(line =~= front + end);
    assert(line.skip(line.len() - end.len()) =~= end);
    lemma_starts_longer(front, end, start);
}

proof fn lemma_line_by_model(name: Seq<char>, b: Bucket, s: ShownView, cost: Seq<char>)
    requires
        cost == if b.unknown_model_calls > 0 {
            "coût N/A"@
        } else {
            s.cost
        },
    ensures
        ({
            let line = row_text(Breakdown::Model, name, b, s);
            &&& starts_with(line, "  "@ + name)
            &&& ends_with(
                line,
                "  calls "@ + right_aligned(int_text(b.calls), 6) + "  "@ + cost,
            )
        }),
{
    let start = "  "@ + name;
    lemma_starts_with_name(name, 22);
    let f0 = "  "@ + left_aligned(name, 22);
    let f1 = f0 + " in "@;
    lemma_starts_longer(f0, " in "@, start);
    let f2 = f1 + right_aligned(s.input, 9);
    lemma_starts_longer(f1, right_aligned(s.input, 9), start);
    let f3 = f2 + "  cached "@;
    lemma_starts_longer(f2, "  cached "@, start);
    let f4 = f3 + right_aligned(s.cached, 9);
    lemma_starts_longer(f3, right_aligned(s.cached, 9), start);
    let f5 = f4 + "  out "@;
    lemma_starts_longer(f4, "  out "@, start);
    let f6 = f5 + right_aligned(s.output, 9);
    lemma_starts_longer(f5, right_aligned(s.output, 9), start);
    let f7 = f6 + "  hit "@;
    lemma_starts_longer(f6, "  hit "@, start);
    let f8 = f7 + right_aligned(s.hit, 5);
    lemma_starts_longer(f7, right_aligned(s.hit, 5), start);
    lemma_ends_with_four(
        f8,
        "  calls "@,
        right_aligned(int_text(b.calls), 6),
        "  "@,
        cost,
        start,
    );
}

proof fn lemma_line_by_day(name: Seq<char>, b: Bucket, s: ShownView, cost: Seq<char>)
    requires
        cost == s.cost,
    ensures
        ({
            let line = row_text(Breakdown::Day, name, b, s);
            &&& starts_with(line, "  "@ + name)
            &&& ends_with(
                line,
                "  calls "@ + right_aligned(int_text(b.calls), 6) + "  "@ + cost,
            )
        }),
{
    let start = "  "@ + name;
    lemma_starts_with_name(name, 12);
    let f0 = "  "@ + left_aligned(name, 12);
    let f1 = f0 + " in "@;
    lemma_starts_longer(f0, " in "@, start);
    let f2 = f1 + right_aligned(s.input, 9);
    lemma_starts_longer(f1, right_aligned(s.input, 9), start);
    let f3 = f2 + "  out "@;
    lemma_starts_longer(f2, "  out "@, start);
    let f4 = f3 + right_aligned(s.output, 9);
    lemma_starts_longer(f3, right_aligned(s.output, 9), start);
    let f5 = f4 + "  hit "@;
    lemma_starts_longer(f4, "  hit "@, start);
    let f6 = f5 + right_aligned(s.hit, 5);
    lemma_starts_longer(f5, right_aligned(s.hit, 5), start);
    lemma_ends_with_four(
        f6,
        "  calls "@,
        right_aligned(int_text(b.calls), 6),
        "  "@,
        cost,
        start,
    );
}

proof fn lemma_line_by_project(name: Seq<char>, b: Bucket, s: ShownView, cost: Seq<char>)
    requires
        cost == s.cost,
    ensures
        ({
            let line = row_text(Breakdown::Project, name, b, s);
            &&& starts_with(line, "  "@ + name)
            &&& ends_with(
                line,
                "  calls "@ + right_aligned(int_text(b.calls), 6) + "  "@ + cost,
            )
        }),
{
    let start = "  "@ + name;
    lemma_starts_with_name(name, 24);
    let f0 = "  "@ + left_aligned(name, 24);
    let f1 = f0 + " in "@;
    lemma_starts_longer(f0, " in "@, start);
    let f2 = f1 + right_aligned(s.input, 9);
    lemma_starts_longer(f1, right_aligned(s.input, 9), start);
    lemma_ends_with_four(
        f2,
        "  calls "@,
        right_aligned(int_text(b.calls), 6),
        "  "@,
        cost,
        start,
    );
}

proof fn lemma_line_by_thread(name: Seq<char>, b: Bucket, s: ShownView, cost: Seq<char>)
    requires
        cost == s.cost,
    ensures
        ({
            let line = row_text(Breakdown::Thread, name, b, s);
            &&& starts_with(line, "  "@ + name)
            &&& ends_with(
                line,
                "  calls "@ + right_aligned(int_text(b.calls), 6) + "  "@ + cost,
            )
        }),
{
    let start = "  "@ + name;
    lemma_starts_with_name(name, 64);
    let f0 = "  "@ + left_aligned(name, 64);
    let f1 = f0 + " in "@;
    lemma_starts_longer(f0, " in "@, start);
    let f2 = f1 + right_aligned(s.input, 9);
    lemma_starts_longer(f1, right_aligned(s.input, 9), start);
    lemma_ends_with_four(
        f2,
        "  calls "@,
        right_aligned(int_text(b.calls), 6),
        "  "@,
        cost,
        start,
    );
}

proof fn lemma_line_by_activity(name: Seq<char>, b: Bucket, s: ShownView, cost: Seq<char>)
    requires
        cost == s.cost,
    ensures
        ({
            let line = row_text(Breakdown::Activity, name, b, s);
            &&& starts_with(line, "  "@ + name)
            &&& ends_with(
                line,
                "  calls "@ + right_aligned(int_text(b.calls), 6) + "  "@ + cost,
            )
        }),
{
    let start = "  "@ + name;
    lemma_starts_with_name(name, 14);
    let f0 = "  "@ + left_aligned(name, 14);
    let f1 = f0 + " in "@;
    lemma_starts_longer(f0, " in "@, start);
    let f2 = f1 + right_aligned(s.input, 9);
    lemma_starts_longer(f1, right_aligned(s.input, 9), start);
    let f3 = f2 + "  out "@;
    lemma_starts_longer(f2, "  out "@, start);
    let f4 = f3 + right_aligned(s.output, 9);
    lemma_starts_longer(f3, right_aligned(s.output, 9), start);
    lemma_ends_with_four(
        f4,
        "  calls "@,
        right_aligned(int_text(b.calls), 6),
        "  "@,
        cost,
        start,
    );
}

/// The line of a bucket starts with its name and ends with its calls and its cost. A model with calls
/// that have no price has no cost; in any other table the cost is always told.
pub proof fn law_line_of_a_bucket(by: Breakdown, name: Seq<char>, b: Bucket, s: ShownView)
    ensures
        ({
            let line = row_text(by, name, b, s);
            let calls = "  calls "@ + right_aligned(int_text(b.calls), 6) + "  "@;
            &&& starts_with(line, "  "@ + name)
            &&& by == Breakdown::Model && b.unknown_model_calls > 0 ==> ends_with(
                line,
                calls + "coût N/A"@,
            )
            &&& by != Breakdown::Model || b.unknown_model_calls == 0 ==> ends_with(
                line,
                calls + s.cost,
            )
        }),
{
    match by {
        Breakdown::Model => {
            if b.unknown_model_calls > 0 {
                lemma_line_by_model(name, b, s, "coût N/A"@);
            } else {
                lemma_line_by_model(name, b, s, s.cost);
            }
        },
        Breakdown::Day => {
            lemma_line_by_day(name, b, s, s.cost);
        },
        Breakdown::Project => {
            lemma_line_by_project(name, b, s, s.cost);
        },
        Breakdown::Thread => {
            lemma_line_by_thread(name, b, s, s.cost);
        },
        Breakdown::Activity => {
            lemma_line_by_activity(name, b, s, s.cost);
        },
    }
}

/// The lines of a model and of a day tell input, output and hits; that of a model tells what was
/// cached as well.
pub proof fn law_line_of_a_model(name: Seq<char>, b: Bucket, s: ShownView)
    requires
        b.unknown_model_calls == 0,
    ensures
        row_text(Breakdown::Model, name, b, s) == "  "@ + left_aligned(name, 22) + " in "@
            + right_aligned(s.input, 9) + "  cached "@ + right_aligned(s.cached, 9) + "  out "@
            + right_aligned(s.output, 9) + "  hit "@ + right_aligned(s.hit, 5) + "  calls "@
            + right_aligned(int_text(b.calls), 6) + "  "@ + s.cost,
        row_text(Breakdown::Day, name, b, s) == "  "@ + left_aligned(name, 12) + " in "@
            + right_aligned(s.input, 9) + "  out "@ + right_aligned(s.output, 9) + "  hit "@
            + right_aligned(s.hit, 5) + "  calls "@ + right_aligned(int_text(b.calls), 6) + "  "@
            + s.cost,
{
}

/// A table has one line for each row, in their order, with the texts under the name of that row.
pub proof fn law_table_has_a_line_for_each_row(
    by: Breakdown,
    rows: Seq<(Seq<char>, Bucket)>,
    shown: Map<Seq<char>, ShownView>,
    i: int,
)
    requires
        0 <= i < rows.len(),
        shown.contains_key(rows[i].0),
    ensures
        table_text(by, rows, shown).len() == rows.len(),
        table_text(by, rows, shown)[i] == row_text(by, rows[i].0, rows[i].1, shown[rows[i].0]),
{
}

/// A list of threads has one line for each, in their order, under its label and with its own texts.
pub proof fn law_list_has_a_line_for_each_thread(
    threads: Seq<ThreadRowView>,
    shown: Map<Seq<char>, ShownView>,
    i: int,
)
    requires
        0 <= i < threads.len(),
        shown.contains_key(threads[i].thread_id),
    ensures
        threads_text(threads, shown).len() == threads.len(),
        threads_text(threads, shown)[i] == row_text(
            Breakdown::Thread,
            thread_label_of(threads[i].thread_id, threads[i].title),
            threads[i].bucket,
            shown[threads[i].thread_id],
        ),
{
}

/// A breakdown has its title and the rows of its own table; that by model has none beside the table
/// that stands in every summary.
pub proof fn law_breakdown_is_the_one_asked_for(
    rules: Seq<RuleView>,
    calls: Seq<CallView>,
    threads: Seq<ThreadRowView>,
    shown: Map<Seq<char>, ShownView>,
)
    ensures
        breakdown_text(Breakdown::Model, rules, calls, threads, shown).len() == 0,
        ({
            let day = breakdown_text(Breakdown::Day, rules, calls, threads, shown);
            &&& day[1] == "Par jour"@
            &&& day.skip(2) == table_text(
                Breakdown::Day,
                rows_of(buckets::<ByDay>(rules, calls)),
                shown,
            )
        }),
        ({
            let project = breakdown_text(Breakdown::Project, rules, calls, threads, shown);
            &&& project[1] == "Par projet"@
            &&& project.skip(2) == table_text(
                Breakdown::Project,
                rows_of(buckets::<ByProject>(rules, calls)),
                shown,
            )
        }),
        ({
            let thread = breakdown_text(Breakdown::Thread, rules, calls, threads, shown);
            &&& thread[1] == "Par thread (top 20 par input)"@
            &&& thread.skip(2) == threads_text(threads, shown)
        }),
        ({
            let activity = breakdown_text(Breakdown::Activity, rules, calls, threads, shown);
            &&& activity[1] == "Par activité"@
            &&& activity.skip(2) == table_text(
                Breakdown::Activity,
                rows_of(buckets::<ByActivity>(rules, calls)),
                shown,
            )
        }),
{
    let day = breakdown_text(Breakdown::Day, rules, calls, threads, shown);
    assert(day.skip(2) =~= table_text(
        Breakdown::Day,
        rows_of(buckets::<ByDay>(rules, calls)),
        shown,
    ));
    let project = breakdown_text(Breakdown::Project, rules, calls, threads, shown);
    assert(project.skip(2) =~= table_text(
        Breakdown::Project,
        rows_of(buckets::<ByProject>(rules, calls)),
        shown,
    ));
    let thread = breakdown_text(Breakdown::Thread, rules, calls, threads, shown);
    assert(thread.skip(2) =~= threads_text(threads, shown));
    let activity = breakdown_text(Breakdown::Activity, rules, calls, threads, shown);
    assert(activity.skip(2) =~= table_text(
        Breakdown::Activity,
        rows_of(buckets::<ByActivity>(rules, calls)),
        shown,
    ));
}

/// Lines under a heading are all there, in their order and marked; without lines there is no
/// heading.
pub proof fn law_heading_stands_over_its_lines(heading: Seq<char>, lines: Seq<Seq<char>>, i: int)
    ensures
        lines.len() == 0 ==> headed(heading, lines).len() == 0,
        lines.len() > 0 ==> headed(heading, lines).len() == lines.len() + 2 && headed(
            heading,
            lines,
        )[1] == heading,
        0 <= i < lines.len() ==> headed(heading, lines)[i + 2] == "  ! "@ + lines[i],
{
}

/// The note on tiers tells how many calls have none, that all have one, or nothing where there are
/// no calls.
pub proof fn law_note_on_tiers(no_tier: u64, calls: nat)
    ensures
        no_tier > 0 ==> tier_note(no_tier, calls) == seq![
            "Note : service tier non déterminé pour "@ + int_text(no_tier)
                + " appel(s) — valorisés au tarif standard (fast/régional non appliqués)."@,
        ],
        no_tier == 0 && calls > 0 ==> tier_note(no_tier, calls) == seq![
            "Note : service tier déterminé pour tous les appels (régional jamais supposé)."@,
        ],
        no_tier == 0 && calls == 0 ==> tier_note(no_tier, calls).len() == 0,
{
}

proof fn lemma_shares_within(calls: Seq<CallView>, m: ModelConfidence, t: ServiceTier)
    ensures
        calls_with_confidence(calls, m) <= calls.len(),
        calls_in_tier(calls, t) <= calls.len(),
    decreases calls.len(),
{
    if calls.len() > 0 {
        lemma_shares_within(calls.drop_last(), m, t);
    }
}

/// The shares count the calls of each confidence, those of the fast tier and those without a tier.
pub proof fn law_shares_count_the_calls(calls: Seq<CallView>)
    requires
        calls.len() <= u64::MAX,
    ensures
        shares_of(calls).exact == calls_with_confidence(calls, ModelConfidence::Exact),
        shares_of(calls).inferred == calls_with_confidence(calls, ModelConfidence::Inferred),
        shares_of(calls).unknown == calls_with_confidence(calls, ModelConfidence::Unknown),
        shares_of(calls).fast == calls_in_tier(calls, ServiceTier::Fast),
        shares_of(calls).no_tier == calls_in_tier(calls, ServiceTier::Unknown),
        shares_of(calls).exact + shares_of(calls).inferred + shares_of(calls).unknown == calls.len(),
{
    lemma_shares_within(calls, ModelConfidence::Exact, ServiceTier::Fast);
    lemma_shares_within(calls, ModelConfidence::Inferred, ServiceTier::Unknown);
    lemma_shares_within(calls, ModelConfidence::Unknown, ServiceTier::Unknown);
    lemma_confidences_add_up(calls);
}

proof fn lemma_confidences_add_up(calls: Seq<CallView>)
    ensures
        calls_with_confidence(calls, ModelConfidence::Exact) + calls_with_confidence(
            calls,
            ModelConfidence::Inferred,
        ) + calls_with_confidence(calls, ModelConfidence::Unknown) == calls.len(),
    decreases calls.len(),
{
    if calls.len() > 0 {
        lemma_confidences_add_up(calls.drop_last());
    }
}

/// The store agrees with a scan if and only if all six counts are the same.
pub proof fn law_status_tells_whether_counts_agree(held: TokenUsage, fresh: TokenUsage)
    ensures
        ({
            let same = held.input_tokens == fresh.input_tokens && held.cached_input_tokens
                == fresh.cached_input_tokens && held.cache_write_input_tokens
                == fresh.cache_write_input_tokens && held.output_tokens == fresh.output_tokens
                && held.reasoning_output_tokens == fresh.reasoning_output_tokens
                && held.total_tokens == fresh.total_tokens;
            &&& same ==> status_of(held, fresh) == "CONSISTENT"@
            &&& !same ==> status_of(held, fresh) == "DIVERGENCE"@
        }),
{
}

/// A comparison tells the input and the calls of the scan and those of the store, each on its line,
/// and whether they agree; where they do not, it tells what to do. Tokens of threads are told, never
/// below zero.
pub proof fn law_comparison_tells_both_sides(
    fresh: TokenUsage,
    calls: u64,
    input: Seq<char>,
    h: Held,
)
    ensures
        ({
            let lines = compared_text(fresh, calls, input, h);
            &&& lines.len() == 5
            &&& lines.contains(
                "  scan frais (memoire)  "@ + input + " tokens input / "@ + int_text(calls)
                    + " appels"@,
            )
            &&& lines.contains(
                "  base SQLite           "@ + h.input@ + " tokens input / "@ + int_text(h.calls)
                    + " appels"@,
            )
            &&& h.lifetime < 0 ==> lines.contains(
                "  state DB lifetime     "@ + int_text(0)
                    + " tokens_used (indication UNIQUEMENT, jamais source de totaux)"@,
            )
            &&& h.lifetime >= 0 ==> lines.contains(
                "  state DB lifetime     "@ + int_text(h.lifetime as u64)
                    + " tokens_used (indication UNIQUEMENT, jamais source de totaux)"@,
            )
            &&& h.totals == fresh ==> lines.contains("  Status: "@ + "CONSISTENT"@ + ""@)
            &&& h.totals != fresh ==> lines.contains(
                "  Status: "@ + "DIVERGENCE"@ + " — relancer `import --full`"@,
            )
        }),
{
    let lines = compared_text(fresh, calls, input, h);
    assert(lines[1] == "  scan frais (memoire)  "@ + input + " tokens input / "@ + int_text(calls)
        + " appels"@);
    assert(lines[2] == "  base SQLite           "@ + h.input@ + " tokens input / "@ + int_text(
        h.calls,
    ) + " appels"@);
    let life: u64 = if h.lifetime < 0 {
        0
    } else {
        h.lifetime as u64
    };
    assert(lines[3] == "  state DB lifetime     "@ + int_text(life)
        + " tokens_used (indication UNIQUEMENT, jamais source de totaux)"@);
    if h.totals == fresh {
        assert(lines[4] == "  Status: "@ + "CONSISTENT"@ + ""@);
    } else {
        assert(lines[4] == "  Status: "@ + "DIVERGENCE"@ + " — relancer `import --full`"@);
    }
}

/// A report tells each count of a scan under its name.
pub proof fn law_scan_counts_are_told(d: DiagnosticsView)
    ensures
        ({
            let lines = met_text(d);
            &&& lines.len() == 10
            &&& lines.contains("  Rollout files found   "@ + decimal_of(d.files_found as nat))
            &&& lines.contains("  Rollout files parsed  "@ + decimal_of(d.files_parsed as nat))
            &&& lines.contains("  Lines scanned         "@ + int_text(d.lines_total))
            &&& lines.contains("  Usage records         "@ + int_text(d.usage_records))
            &&& lines.contains("  Duplicates ignored    "@ + int_text(d.duplicates_ignored))
            &&& lines.contains("  Legacy records        "@ + int_text(d.legacy_records))
            &&& lines.contains("  Legacy null info      "@ + int_text(d.legacy_null_info))
            &&& lines.contains("  Parsing errors        "@ + decimal_of(d.parse_errors.len()))
            &&& lines.contains("  Subset violations     "@ + decimal_of(d.subset_violations as nat))
        }),
{
    let lines = met_text(d);
    assert(lines[1] == "  Rollout files found   "@ + decimal_of(d.files_found as nat));
    assert(lines[2] == "  Rollout files parsed  "@ + decimal_of(d.files_parsed as nat));
    assert(lines[3] == "  Lines scanned         "@ + int_text(d.lines_total));
    assert(lines[4] == "  Usage records         "@ + int_text(d.usage_records));
    assert(lines[5] == "  Duplicates ignored    "@ + int_text(d.duplicates_ignored));
    assert(lines[6] == "  Legacy records        "@ + int_text(d.legacy_records));
    assert(lines[7] == "  Legacy null info      "@ + int_text(d.legacy_null_info));
    assert(lines[8] == "  Parsing errors        "@ + decimal_of(d.parse_errors.len()));
    assert(lines[9] == "  Subset violations     "@ + decimal_of(d.subset_violations as nat));
}

/// A report tells what the store holds, each count under its name.
pub proof fn law_held_counts_are_told(h: Held)
    ensures
        ({
            let lines = held_text(h);
            &&& lines.len() == 5
            &&& lines.contains("  Appels stockes        "@ + int_text(h.calls))
            &&& lines.contains("  Input                 "@ + int_text(h.totals.input_tokens))
            &&& lines.contains("  Cached                "@ + int_text(h.totals.cached_input_tokens))
            &&& lines.contains("  Output                "@ + int_text(h.totals.output_tokens))
        }),
{
    let lines = held_text(h);
    assert(lines[1] == "  Appels stockes        "@ + int_text(h.calls));
    assert(lines[2] == "  Input                 "@ + int_text(h.totals.input_tokens));
    assert(lines[3] == "  Cached                "@ + int_text(h.totals.cached_input_tokens));
    assert(lines[4] == "  Output                "@ + int_text(h.totals.output_tokens));
}

/// What a scan met is told behind its totals: the files found, parsed, failed and archived, and the
/// number of its errors.
pub proof fn law_scan_report_ends_with_files_and_errors(
    d: DiagnosticsView,
    usage: TokenUsage,
    calls: u64,
    shown: ShownTotals,
)
    ensures
        ({
            let lines = scan_text(d, usage, calls, shown);
            let n = totals_text(usage, calls, shown).len() as int;
            &&& lines.len() == n + 2
            &&& lines.take(n) == totals_text(usage, calls, shown)
            &&& lines[n] == "Files  "@ + decimal_of(d.files_found as nat) + " found / "@
                + decimal_of(d.files_parsed as nat) + " parsed / "@ + decimal_of(
                d.files_failed as nat,
            ) + " failed ("@ + decimal_of(d.archived_files as nat) + " archived)"@
            &&& lines[n + 1] == "Errors "@ + decimal_of(d.parse_errors.len())
        }),
{
    let lines = scan_text(d, usage, calls, shown);
    let n = totals_text(usage, calls, shown).len() as int;
    assert(lines.take(n) =~= totals_text(usage, calls, shown));
}

/// An anomaly is told with the thread, the day or the number that it is about; each has its line, in
/// their order, with its own share.
pub proof fn law_anomaly_is_told_with_its_subject(
    list: Seq<AnomalyView>,
    shares: Seq<Seq<char>>,
    i: int,
    share: Seq<char>,
    name: Seq<char>,
    n: u64,
    m: u64,
    k: usize,
)
    ensures
        anomaly_text(AnomalyView::AutoReview { input: n, total: m }, share) == "Auto Review = "@
            + share + " % de l'usage total (> 10 %)"@,
        anomaly_text(AnomalyView::LongContext(n), share) == decimal_of(n as nat)
            + " appel(s) au-dela de 272K input"@,
        anomaly_text(AnomalyView::LowCache { thread: name, cached: n, input: m }, share)
            == "Thread "@ + name + " : cache hit "@ + share + " % (< 70 %)"@,
        anomaly_text(AnomalyView::HeavyThread { thread: name, input: n }, share) == "Thread "@
            + name + " : "@ + decimal_of(n as nat) + " tokens d'input (> 10M)"@,
        anomaly_text(AnomalyView::BusyDay { day: name, input: n, total: m, days: k }, share)
            == name + " : "@ + share + "x la moyenne quotidienne"@,
        anomaly_texts(list, shares).len() == list.len(),
        0 <= i < list.len() ==> anomaly_texts(list, shares)[i] == anomaly_text(list[i], shares[i]),
{
}

proof fn lemma_stand_between(a: Seq<Seq<char>>, part: Seq<Seq<char>>, b: Seq<Seq<char>>)
    ensures
        stand_among(a + part + b, part),
{
    let at = a.len() as int;
    assert((a + part + b).subrange(at, (at + part.len()) as int) =~= part);
}

/// A summary starts with its period and holds the totals of all its calls, their costs, the table by
/// model, the breakdown that was asked for and the anomalies, and ends with the note on tiers.
#[verifier::rlimit(40)]
pub proof fn law_summary_holds_its_parts(
    rules: Seq<RuleView>,
    calls: Seq<CallView>,
    by: Breakdown,
    period: Seq<char>,
    threads: Seq<ThreadRowView>,
    anomalies: Seq<Seq<char>>,
    shown: ShownSummary,
)
    ensures
        ({
            let lines = summary_text(rules, calls, by, period, threads, anomalies, shown);
            let total = bucket_sum(rules, calls);
            let note = tier_note(shares_of(calls).no_tier, calls.len());
            &&& lines[0] == "Periode            "@ + period
            &&& stand_among(lines, totals_text(total.usage, calls.len() as u64, shown.totals))
            &&& stand_among(lines, costs_text(total, shares_of(calls), shown.costs))
            &&& stand_among(
                lines,
                table_text(
                    Breakdown::Model,
                    rows_of(buckets::<ByModel>(rules, calls)),
                    shown.by_model@,
                ),
            )
            &&& stand_among(lines, breakdown_text(by, rules, calls, threads, shown.breakdown@))
            &&& stand_among(lines, headed("Anomalies"@, anomalies))
            &&& lines.len() >= note.len() && lines.skip(lines.len() - note.len()) == note
        }),
{
    let lines = summary_text(rules, calls, by, period, threads, anomalies, shown);
    let total = bucket_sum(rules, calls);
    let shares = shares_of(calls);
    let p0 = seq!["Periode            "@ + period];
    let p1 = totals_text(total.usage, calls.len() as u64, shown.totals);
    let p2 = seq![""@];
    let p3 = costs_text(total, shares, shown.costs);
    let p4 = seq![""@, "Par modèle"@];
    let p5 = table_text(
        Breakdown::Model,
        rows_of(buckets::<ByModel>(rules, calls)),
        shown.by_model@,
    );
    let p6 = breakdown_text(by, rules, calls, threads, shown.breakdown@);
    let p7 = headed("Anomalies"@, anomalies);
    let note = tier_note(shares.no_tier, calls.len());
    lemma_parts_of_nine(p0, p1, p2, p3, p4, p5, p6, p7, note);
    assert(lines == p0 + p1 + p2 + p3 + p4 + p5 + p6 + p7 + p2 + note);
}

proof fn lemma_parts_of_nine(
    p0: Seq<Seq<char>>,
    p1: Seq<Seq<char>>,
    p2: Seq<Seq<char>>,
    p3: Seq<Seq<char>>,
    p4: Seq<Seq<char>>,
    p5: Seq<Seq<char>>,
    p6: Seq<Seq<char>>,
    p7: Seq<Seq<char>>,
    p8: Seq<Seq<char>>,
)
    requires
        p0.len() == 1,
    ensures
        ({
            let all = p0 + p1 + p2 + p3 + p4 + p5 + p6 + p7 + p2 + p8;
            &&& all[0] == p0[0]
            &&& stand_among(all, p1)
            &&& stand_among(all, p3)
            &&& stand_among(all, p5)
            &&& stand_among(all, p6)
            &&& stand_among(all, p7)
            &&& all.len() >= p8.len() && all.skip(all.len() - p8.len()) == p8
        }),
{
    let all = p0 + p1 + p2 + p3 + p4 + p5 + p6 + p7 + p2 + p8;
    let b7 = p2 + p8;
    let b6 = p7 + b7;
    let b5 = p6 + b6;
    let b4 = p5 + b5;
    let b3 = p4 + b4;
    let b2 = p3 + b3;
    let b1 = p2 + b2;
    let a1 = p0;
    let a3 = a1 + p1 + p2;
    let a5 = a3 + p3 + p4;
    let a6 = a5 + p5;
    let a7 = a6 + p6;
    assert(all =~= a7 + p7 + b7);
    lemma_stand_between(a7, p7, b7);
    assert(all =~= a6 + p6 + b6);
    lemma_stand_between(a6, p6, b6);
    assert(all =~= a5 + p5 + b5);
    lemma_stand_between(a5, p5, b5);
    assert(all =~= a3 + p3 + b3);
    lemma_stand_between(a3, p3, b3);
    assert(all =~= a1 + p1 + b1);
    lemma_stand_between(a1, p1, b1);
    assert(all.skip(all.len() - p8.len()) =~= p8);
}

/// What is unusual in some calls is judged by all of them: by what auto review takes of their input,
/// and by how many of them are of long context.
pub proof fn law_anomalies_of_some_calls(
    rules: Seq<RuleView>,
    calls: Seq<CallView>,
    input: u64,
    total: u64,
    n: u64,
)
    ensures
        anomalies_in(rules, calls).contains(AnomalyView::LongContext(n)) <==> n > 0 && n
            == bucket_sum(rules, calls).long_context_calls,
        anomalies_in(rules, calls).contains(AnomalyView::AutoReview { input, total }) <==> total > 0
            && 10 * input > total && total == usage_sum(calls).input_tokens && input == input_under(
            buckets::<ByActivity>(rules, calls),
            "auto_review"@,
        ),
{
    let by_day = buckets::<ByDay>(rules, calls);
    let by_activity = buckets::<ByActivity>(rules, calls);
    let long = bucket_sum(rules, calls).long_context_calls;
    law_what_is_unusual(calls, by_day, by_activity, long, AnomalyView::LongContext(n));
    law_what_is_unusual(calls, by_day, by_activity, long, AnomalyView::AutoReview { input, total });
}

/// The threads of each activity have a line each, in the order of the rows; without them the report
/// says so.
pub proof fn law_activities_are_told(m: Map<Seq<char>, u64>, i: int)
    ensures
        activities_text(None) == seq![
            "Threads state db (enrichissement)"@,
            "  state_5.sqlite indisponible — enrichissement desactive"@,
        ],
        activities_text(Some(m)).len() == rows_of(m).len() + 1,
        0 <= i < rows_of(m).len() ==> activities_text(Some(m))[i + 1] == "  "@ + left_aligned(
            rows_of(m)[i].0,
            14,
        ) + " "@ + decimal_of(rows_of(m)[i].1 as nat),
{
    assert(activities_text(None) =~= seq![
        "Threads state db (enrichissement)"@,
        "  state_5.sqlite indisponible — enrichissement desactive"@,
    ]);
}

/// The catalogues are told with their versions and with when they were verified.
pub proof fn law_catalogs_are_told(engine: crate::pricing::PricingEngine)
    ensures
        ({
            let lines = catalogs_text(engine);
            &&& lines.len() == 3
            &&& lines[1] == "  "@ + engine.codex.catalog@ + " v"@ + engine.codex.version@
                + " (vérifié "@ + engine.codex.last_verified@ + ", "@ + engine.codex.source_url@
                + ")"@
            &&& lines[2] == "  "@ + engine.api.catalog@ + " v"@ + engine.api.version@
                + " (vérifié "@ + engine.api.last_verified@ + ")"@
        }),
{
}

/// The report on the state of things tells the home and the store, and holds what the scan met, what
/// the store holds, how the two compare, the threads, the catalogues and the first errors.
#[verifier::rlimit(40)]
pub proof fn law_doctor_holds_its_parts(
    fresh: crate::scan::ScanOutcome,
    db_path: Seq<char>,
    h: Held,
    counts: Option<Map<Seq<char>, u64>>,
    engine: crate::pricing::PricingEngine,
    input: Seq<char>,
)
    ensures
        ({
            let lines = doctor_text(fresh, db_path, h, counts, engine, input);
            &&& lines[0] == "Codex home            "@ + fresh.codex_home@
            &&& lines[1] == "Base                  "@ + db_path
            &&& stand_among(lines, met_text(fresh.diagnostics@))
            &&& stand_among(lines, held_text(h))
            &&& stand_among(
                lines,
                compared_text(fresh.totals, fresh.calls@.len() as u64, input, h),
            )
            &&& stand_among(lines, activities_text(counts))
            &&& stand_among(lines, catalogs_text(engine))
            &&& stand_among(
                lines,
                headed(
                    "Erreurs de parsing (max 10) :"@,
                    crate::ui::first_ten(fresh.diagnostics@.parse_errors),
                ),
            )
        }),
{
    let lines = doctor_text(fresh, db_path, h, counts, engine, input);
    let none = seq![""@];
    let p0 = seq!["Codex home            "@ + fresh.codex_home@, "Base                  "@ + db_path, ""@];
    let p1 = met_text(fresh.diagnostics@);
    let p2 = held_text(h);
    let p3 = compared_text(fresh.totals, fresh.calls@.len() as u64, input, h);
    let p4 = activities_text(counts);
    let p5 = catalogs_text(engine);
    let p6 = headed(
        "Erreurs de parsing (max 10) :"@,
        crate::ui::first_ten(fresh.diagnostics@.parse_errors),
    );
    assert(lines == p0 + p1 + none + p2 + none + p3 + none + p4 + none + p5 + p6);
    lemma_parts_of_doctor(p0, p1, p2, p3, p4, p5, p6, none);
}

proof fn lemma_parts_of_doctor(
    p0: Seq<Seq<char>>,
    p1: Seq<Seq<char>>,
    p2: Seq<Seq<char>>,
    p3: Seq<Seq<char>>,
    p4: Seq<Seq<char>>,
    p5: Seq<Seq<char>>,
    p6: Seq<Seq<char>>,
    none: Seq<Seq<char>>,
)
    requires
        p0.len() == 3,
    ensures
        ({
            let all = p0 + p1 + none + p2 + none + p3 + none + p4 + none + p5 + p6;
            &&& all[0] == p0[0]
            &&& all[1] == p0[1]
            &&& stand_among(all, p1)
            &&& stand_among(all, p2)
            &&& stand_among(all, p3)
            &&& stand_among(all, p4)
            &&& stand_among(all, p5)
            &&& stand_among(all, p6)
        }),
{
    let all = p0 + p1 + none + p2 + none + p3 + none + p4 + none + p5 + p6;
    let b6 = Seq::<Seq<char>>::empty();
    let b5 = p6;
    let b4 = none + p5 + b5;
    let b3 = none + p4 + b4;
    let b2 = none + p3 + b3;
    let b1 = none + p2 + b2;
    let a2 = p0 + p1 + none;
    let a3 = a2 + p2 + none;
    let a4 = a3 + p3 + none;
    let a5 = a4 + p4 + none;
    let a6 = a5 + p5;
    assert(all =~= p0 + p1 + b1);
    lemma_stand_between(p0, p1, b1);
    assert(all =~= a2 + p2 + b2);
    lemma_stand_between(a2, p2, b2);
    assert(all =~= a3 + p3 + b3);
    lemma_stand_between(a3, p3, b3);
    assert(all =~= a4 + p4 + b4);
    lemma_stand_between(a4, p4, b4);
    assert(all =~= a5 + p5 + b5);
    lemma_stand_between(a5, p5, b5);
    assert(all =~= a6 + p6 + b6);
    lemma_stand_between(a6, p6, b6);
}

} // verus!
