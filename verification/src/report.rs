//! The reports of the command line, line by line. Fractions and amounts of money come in as texts.

use vstd::prelude::*;

use crate::aggregate;
use crate::aggregate::anomalies_of;
use crate::aggregate::bucket_sum;
use crate::aggregate::buckets;
use crate::aggregate::calls_with_confidence;
use crate::aggregate::Anomaly;
use crate::aggregate::AnomalyView;
use crate::aggregate::Bucket;
use crate::aggregate::Buckets;
use crate::aggregate::ByActivity;
use crate::aggregate::ByDay;
use crate::aggregate::ByModel;
use crate::aggregate::ByProject;
use crate::format::fmt_int;
use crate::format::grouped;
use crate::import::ImportReport;
use crate::model::CallView;
use crate::model::InferenceCall;
use crate::model::ModelConfidence;
use crate::model::ServiceTier;
use crate::model::TokenUsage;
use crate::pricing;
use crate::pricing::calls_in_tier;
use crate::pricing::PricingEngine;
use crate::pricing::RuleView;
use crate::scan::Diagnostics;
use crate::scan::DiagnosticsView;
use crate::scan::ScanOutcome;
use crate::text;
use crate::text::decimal_of;
use crate::text_map::lemma_rows_of;
use crate::text_map::rows_of;
use crate::text_map::TextMap;
use crate::ui;
use crate::ui::are_top_threads;
use crate::ui::first_ten;
use crate::ui::period_text;
use crate::ui::thread_label_of;
use crate::ui::ThreadRow;
use crate::ui::ThreadRowView;

verus! {

/// So many blanks.
pub open spec fn blanks(n: nat) -> Seq<char> {
    Seq::new(n, |i: int| ' ')
}

/// A text with blanks behind it, up to a width.
pub open spec fn left_aligned(t: Seq<char>, width: nat) -> Seq<char> {
    if t.len() < width {
        t + blanks((width - t.len()) as nat)
    } else {
        t
    }
}

/// A text with blanks before it, up to a width.
pub open spec fn right_aligned(t: Seq<char>, width: nat) -> Seq<char> {
    if t.len() < width {
        blanks((width - t.len()) as nat) + t
    } else {
        t
    }
}

/// A number with its digits in groups.
pub open spec fn int_text(n: u64) -> Seq<char> {
    grouped(decimal_of(n as nat))
}

fn make_blanks(n: usize) -> (r: String)
    ensures
        r@ == blanks(n as nat),
{
    let mut r = String::new();
    let mut i: usize = 0;
    proof {
        reveal_strlit(" ");
    }
    assert(r@ =~= blanks(0));
    while i < n
        invariant
            i <= n,
            r@ == blanks(i as nat),
            " "@ == seq![' '],
        decreases n - i,
    {
        r.append(" ");
        i += 1;
        assert(r@ =~= blanks(i as nat));
    }
    r
}

fn align_left(t: &str, width: usize) -> (r: String)
    ensures
        r@ == left_aligned(t@, width as nat),
{
    let len: usize = text::letters(t).len();
    if len < width {
        text::join(t, make_blanks(width - len).as_str())
    } else {
        t.to_owned()
    }
}

fn align_right(t: &str, width: usize) -> (r: String)
    ensures
        r@ == right_aligned(t@, width as nat),
{
    let len: usize = text::letters(t).len();
    if len < width {
        text::join(make_blanks(width - len).as_str(), t)
    } else {
        t.to_owned()
    }
}

fn add_line(to: &mut Vec<String>, line: String)
    ensures
        final(to).deep_view() == old(to).deep_view().push(line@),
{
    let ghost before = to.deep_view();
    to.push(line);
    assert(to.deep_view() =~= before.push(line@));
}

fn add_lines(to: &mut Vec<String>, more: Vec<String>)
    ensures
        final(to).deep_view() == old(to).deep_view() + more.deep_view(),
{
    let ghost before = to.deep_view();
    let ghost all = more.deep_view();
    let mut rest = more;
    to.append(&mut rest);
    assert(to.deep_view() =~= before + all);
}

fn no_lines() -> (r: Vec<String>)
    ensures
        r.deep_view() == Seq::<Seq<char>>::empty(),
{
    let r: Vec<String> = Vec::new();
    assert(r.deep_view() =~= Seq::<Seq<char>>::empty());
    r
}

/// A label and a number.
fn counted(label: &str, n: u64) -> (r: String)
    ensures
        r@ == label@ + decimal_of(n as nat),
{
    text::join(label, text::decimal(n).as_str())
}

/// A label and a number with its digits in groups.
fn grouped_line(label: &str, n: u64) -> (r: String)
    ensures
        r@ == label@ + int_text(n),
{
    text::join(label, fmt_int(n).as_str())
}

/// What an import did, in lines. Pruned events, repaired tiers and new prices are told only
/// where there are any.
pub open spec fn import_text(rep: ImportReport) -> Seq<Seq<char>> {
    seq![
        "Import termine en "@ + decimal_of(rep.duration_ms as nat) + " ms"@,
        "  Fichiers vus       "@ + decimal_of(rep.files_seen as nat),
        "  Fichiers ignores   "@ + decimal_of(rep.files_skipped as nat) + " (checkpoint a jour)"@,
        "  Fichiers modifies  "@ + decimal_of(rep.files_changed as nat),
        "  Octets lus         "@ + int_text(rep.bytes_read),
        "  Appels insérés     "@ + int_text(rep.calls_inserted),
        "  Doublons ignores   "@ + int_text(rep.duplicates_ignored),
    ] + (if rep.legacy_pruned > 0 {
        seq![
            "  Legacy purges      "@ + int_text(rep.legacy_pruned)
                + " (session deja couverte en moderne)"@,
        ]
    } else {
        Seq::empty()
    }) + seq![
        "  Erreurs parsing    "@ + decimal_of(rep.parse_errors as nat),
        "  Threads enrichis   "@ + decimal_of(rep.threads_enriched as nat) + " ("@ + int_text(
            rep.calls_enriched,
        ) + " calls touches)"@,
    ] + (if rep.tiers_repaired > 0 {
        seq!["  Tiers repares      "@ + int_text(rep.tiers_repaired)]
    } else {
        Seq::empty()
    }) + (if rep.repriced {
        seq!["  Re-pricing         "@ + decimal_of(rep.priced_calls as nat) + " appels valorises"@]
    } else {
        Seq::empty()
    })
}

/// Tells what an import did.
pub fn import_lines(rep: &ImportReport) -> (r: Vec<String>)
    ensures
        r.deep_view() == import_text(*rep),
{
    let mut r = no_lines();
    let mut line = counted("Import termine en ", rep.duration_ms);
    line.append(" ms");
    add_line(&mut r, line);
    add_line(&mut r, counted("  Fichiers vus       ", rep.files_seen as u64));
    let mut line = counted("  Fichiers ignores   ", rep.files_skipped as u64);
    line.append(" (checkpoint a jour)");
    add_line(&mut r, line);
    add_line(&mut r, counted("  Fichiers modifies  ", rep.files_changed as u64));
    add_line(&mut r, grouped_line("  Octets lus         ", rep.bytes_read));
    add_line(&mut r, grouped_line("  Appels insérés     ", rep.calls_inserted));
    add_line(&mut r, grouped_line("  Doublons ignores   ", rep.duplicates_ignored));
    if rep.legacy_pruned > 0 {
        let mut line = grouped_line("  Legacy purges      ", rep.legacy_pruned);
        line.append(" (session deja couverte en moderne)");
        add_line(&mut r, line);
    }
    add_line(&mut r, counted("  Erreurs parsing    ", rep.parse_errors));
    let mut line = counted("  Threads enrichis   ", rep.threads_enriched as u64);
    line.append(" (");
    line.append(fmt_int(rep.calls_enriched).as_str());
    line.append(" calls touches)");
    add_line(&mut r, line);
    if rep.tiers_repaired > 0 {
        add_line(&mut r, grouped_line("  Tiers repares      ", rep.tiers_repaired));
    }
    if rep.repriced {
        let mut line = counted("  Re-pricing         ", rep.priced_calls);
        line.append(" appels valorises");
        add_line(&mut r, line);
    }
    assert(r.deep_view() =~= import_text(*rep));
    r
}

/// The numbers of tokens of a report, each in its unit, and the share of the cache.
pub struct ShownTotals {
    pub input: String,
    pub cached: String,
    pub ordinary: String,
    pub output: String,
    pub hit: String,
}

/// The lines of the totals. The share of the cache is told only where there is input.
pub open spec fn totals_text(usage: TokenUsage, calls: u64, shown: ShownTotals) -> Seq<Seq<char>> {
    seq![
        "Calls        "@ + int_text(calls),
        "Input        "@ + shown.input@,
        "Cached       "@ + shown.cached@,
        "Non cached   "@ + shown.ordinary@,
        "Output       "@ + shown.output@,
    ] + (if usage.input_tokens > 0 {
        seq!["Cache hit    "@ + shown.hit@ + " %"@]
    } else {
        Seq::empty()
    })
}

/// Tells the totals.
pub fn totals_lines(usage: &TokenUsage, calls: u64, shown: &ShownTotals) -> (r: Vec<String>)
    ensures
        r.deep_view() == totals_text(*usage, calls, *shown),
{
    let mut r = no_lines();
    add_line(&mut r, grouped_line("Calls        ", calls));
    add_line(&mut r, text::join("Input        ", shown.input.as_str()));
    add_line(&mut r, text::join("Cached       ", shown.cached.as_str()));
    add_line(&mut r, text::join("Non cached   ", shown.ordinary.as_str()));
    add_line(&mut r, text::join("Output       ", shown.output.as_str()));
    if usage.input_tokens > 0 {
        let mut line = text::join("Cache hit    ", shown.hit.as_str());
        line.append(" %");
        add_line(&mut r, line);
    }
    assert(r.deep_view() =~= totals_text(*usage, calls, *shown));
    r
}

/// What all calls come to.
pub struct ShownCosts {
    pub equivalent: String,
    pub without_cache: String,
    pub savings: String,
    /// The share of the savings with its sign, or that there is none.
    pub savings_share: String,
    pub confidence: String,
    /// The tokens of the calls that have no price.
    pub unpriced: String,
}

/// The calls of each confidence or tier.
pub struct Shares {
    pub exact: u64,
    pub inferred: u64,
    pub unknown: u64,
    pub fast: u64,
    pub no_tier: u64,
}

/// The lines on costs. What has no price, which models were not found exactly, and the fast tier
/// are told only where there is something to tell.
pub open spec fn costs_text(total: Bucket, shares: Shares, shown: ShownCosts) -> Seq<Seq<char>> {
    seq![
        "Equivalent Codex   "@ + shown.equivalent@,
        "Sans cache         "@ + shown.without_cache@,
        "Economie cache     "@ + shown.savings@ + " ("@ + shown.savings_share@ + ")"@,
    ] + (if total.unknown_model_calls > 0 {
        seq![
            "Coût N/A           "@ + int_text(total.unknown_model_calls) + " appels / "@
                + shown.unpriced@ + " tokens sans tarif connu"@,
        ]
    } else {
        Seq::empty()
    }) + (if shares.inferred > 0 || shares.unknown > 0 {
        seq![
            "Confiance modèle   exact "@ + decimal_of(shares.exact as nat) + " · inferred "@
                + decimal_of(shares.inferred as nat) + " · unknown "@ + decimal_of(
                shares.unknown as nat,
            ),
        ]
    } else {
        Seq::empty()
    }) + seq!["Confiance tarif    "@ + shown.confidence@ + " %"@] + (if shares.fast > 0 {
        seq![
            "Fast mode          "@ + int_text(shares.fast)
                + " appel(s) — multiplicateur fast appliqué"@,
        ]
    } else {
        Seq::empty()
    })
}

fn costs_lines(total: &Bucket, shares: &Shares, shown: &ShownCosts) -> (r: Vec<String>)
    ensures
        r.deep_view() == costs_text(*total, *shares, *shown),
{
    let mut r = no_lines();
    add_line(&mut r, text::join("Equivalent Codex   ", shown.equivalent.as_str()));
    add_line(&mut r, text::join("Sans cache         ", shown.without_cache.as_str()));
    let mut line = text::join("Economie cache     ", shown.savings.as_str());
    line.append(" (");
    line.append(shown.savings_share.as_str());
    line.append(")");
    add_line(&mut r, line);
    if total.unknown_model_calls > 0 {
        let mut line = grouped_line("Coût N/A           ", total.unknown_model_calls);
        line.append(" appels / ");
        line.append(shown.unpriced.as_str());
        line.append(" tokens sans tarif connu");
        add_line(&mut r, line);
    }
    if shares.inferred > 0 || shares.unknown > 0 {
        let mut line = counted("Confiance modèle   exact ", shares.exact);
        line.append(" · inferred ");
        line.append(text::decimal(shares.inferred).as_str());
        line.append(" · unknown ");
        line.append(text::decimal(shares.unknown).as_str());
        add_line(&mut r, line);
    }
    let mut line = text::join("Confiance tarif    ", shown.confidence.as_str());
    line.append(" %");
    add_line(&mut r, line);
    if shares.fast > 0 {
        let mut line = grouped_line("Fast mode          ", shares.fast);
        line.append(" appel(s) — multiplicateur fast appliqué");
        add_line(&mut r, line);
    }
    assert(r.deep_view() =~= costs_text(*total, *shares, *shown));
    r
}

/// What a summary is broken down by.
#[derive(Debug, Clone, Copy, PartialEq, Eq, Structural)]
pub enum Breakdown {
    Day,
    Project,
    Thread,
    Activity,
    Model,
}

/// The texts of a bucket.
pub struct ShownBucket {
    pub input: String,
    pub cached: String,
    pub output: String,
    pub hit: String,
    pub cost: String,
}

/// What a [`ShownBucket`] says.
pub struct ShownView {
    pub input: Seq<char>,
    pub cached: Seq<char>,
    pub output: Seq<char>,
    pub hit: Seq<char>,
    pub cost: Seq<char>,
}

impl DeepView for ShownBucket {
    type V = ShownView;

    open spec fn deep_view(&self) -> ShownView {
        ShownView {
            input: self.input@,
            cached: self.cached@,
            output: self.output@,
            hit: self.hit@,
            cost: self.cost@,
        }
    }
}

/// Empty texts.
pub open spec fn nothing_shown() -> ShownView {
    ShownView {
        input: Seq::empty(),
        cached: Seq::empty(),
        output: Seq::empty(),
        hit: Seq::empty(),
        cost: Seq::empty(),
    }
}

/// The texts under a key; empty ones where there are none.
pub open spec fn shown_at(m: Map<Seq<char>, ShownView>, k: Seq<char>) -> ShownView {
    if m.contains_key(k) {
        m[k]
    } else {
        nothing_shown()
    }
}

/// The line of a bucket. A model with calls that have no price is told without one.
pub open spec fn row_text(by: Breakdown, name: Seq<char>, b: Bucket, s: ShownView) -> Seq<char> {
    match by {
        Breakdown::Model => "  "@ + left_aligned(name, 22) + " in "@ + right_aligned(s.input, 9)
            + "  cached "@ + right_aligned(s.cached, 9) + "  out "@ + right_aligned(s.output, 9)
            + "  hit "@ + right_aligned(s.hit, 5) + "  calls "@ + right_aligned(
            int_text(b.calls),
            6,
        ) + "  "@ + if b.unknown_model_calls > 0 {
            "coût N/A"@
        } else {
            s.cost
        },
        Breakdown::Day => "  "@ + left_aligned(name, 12) + " in "@ + right_aligned(s.input, 9)
            + "  out "@ + right_aligned(s.output, 9) + "  hit "@ + right_aligned(s.hit, 5)
            + "  calls "@ + right_aligned(int_text(b.calls), 6) + "  "@ + s.cost,
        Breakdown::Project => "  "@ + left_aligned(name, 24) + " in "@ + right_aligned(s.input, 9)
            + "  calls "@ + right_aligned(int_text(b.calls), 6) + "  "@ + s.cost,
        Breakdown::Thread => "  "@ + left_aligned(name, 64) + " in "@ + right_aligned(s.input, 9)
            + "  calls "@ + right_aligned(int_text(b.calls), 6) + "  "@ + s.cost,
        Breakdown::Activity => "  "@ + left_aligned(name, 14) + " in "@ + right_aligned(s.input, 9)
            + "  out "@ + right_aligned(s.output, 9) + "  calls "@ + right_aligned(
            int_text(b.calls),
            6,
        ) + "  "@ + s.cost,
    }
}

fn append_right(r: &mut String, t: &str, width: usize)
    ensures
        final(r)@ == old(r)@ + right_aligned(t@, width as nat),
{
    r.append(align_right(t, width).as_str());
}

fn row_line(by: Breakdown, name: &str, b: &Bucket, shown: Option<&ShownBucket>) -> (r: String)
    ensures
        r@ == row_text(
            by,
            name@,
            *b,
            match shown {
                Some(s) => s.deep_view(),
                None => nothing_shown(),
            },
        ),
{
    let (input, cached, output, hit, cost) = match shown {
        Some(s) => (
            s.input.as_str(),
            s.cached.as_str(),
            s.output.as_str(),
            s.hit.as_str(),
            s.cost.as_str(),
        ),
        None => ("", "", "", "", ""),
    };
    proof {
        reveal_strlit("");
        assert(""@ =~= Seq::<char>::empty());
    }
    let width: usize = match by {
        Breakdown::Model => 22,
        Breakdown::Day => 12,
        Breakdown::Project => 24,
        Breakdown::Thread => 64,
        Breakdown::Activity => 14,
    };
    let calls = fmt_int(b.calls);
    let mut r = text::join("  ", align_left(name, width).as_str());
    r.append(" in ");
    append_right(&mut r, input, 9);
    if matches!(by, Breakdown::Model) {
        r.append("  cached ");
        append_right(&mut r, cached, 9);
    }
    if matches!(by, Breakdown::Model | Breakdown::Day | Breakdown::Activity) {
        r.append("  out ");
        append_right(&mut r, output, 9);
    }
    if matches!(by, Breakdown::Model | Breakdown::Day) {
        r.append("  hit ");
        append_right(&mut r, hit, 5);
    }
    r.append("  calls ");
    append_right(&mut r, calls.as_str(), 6);
    r.append("  ");
    if matches!(by, Breakdown::Model) && b.unknown_model_calls > 0 {
        r.append("coût N/A");
    } else {
        r.append(cost);
    }
    r
}

/// The lines of a table.
pub open spec fn table_text(
    by: Breakdown,
    rows: Seq<(Seq<char>, Bucket)>,
    shown: Map<Seq<char>, ShownView>,
) -> Seq<Seq<char>> {
    Seq::new(
        rows.len(),
        |i: int| row_text(by, rows[i].0, rows[i].1, shown_at(shown, rows[i].0)),
    )
}

fn table_lines(by: Breakdown, table: &Buckets, shown: &TextMap<ShownBucket>) -> (r: Vec<String>)
    ensures
        r.deep_view() == table_text(by, rows_of(table@), shown@),
{
    let n: usize = table.len();
    let ghost rows = table.rows();
    proof {
        lemma_rows_of(rows);
    }
    let mut r = no_lines();
    let mut i: usize = 0;
    assert(r.deep_view() =~= table_text(by, rows.take(0), shown@));
    while i < n
        invariant
            n == rows.len(),
            rows == table.rows(),
            i <= n,
            r.deep_view() == table_text(by, rows.take(i as int), shown@),
        decreases n - i,
    {
        let name = table.key_at(i);
        let b = table.value_at(i);
        let line = row_line(by, name.as_str(), b, shown.get(name.as_str()));
        assert(rows[i as int] == (name@, *b));
        add_line(&mut r, line);
        i += 1;
        assert(r.deep_view() =~= table_text(by, rows.take(i as int), shown@));
    }
    assert(rows.take(n as int) =~= rows);
    r
}

/// The lines of threads, each under its label.
pub open spec fn threads_text(
    threads: Seq<ThreadRowView>,
    shown: Map<Seq<char>, ShownView>,
) -> Seq<Seq<char>> {
    Seq::new(
        threads.len(),
        |i: int|
            row_text(
                Breakdown::Thread,
                thread_label_of(threads[i].thread_id, threads[i].title),
                threads[i].bucket,
                shown_at(shown, threads[i].thread_id),
            ),
    )
}

fn threads_lines(threads: &Vec<ThreadRow>, shown: &TextMap<ShownBucket>) -> (r: Vec<String>)
    ensures
        r.deep_view() == threads_text(threads.deep_view(), shown@),
{
    let n: usize = threads.len();
    let ghost all = threads.deep_view();
    let mut r = no_lines();
    let mut i: usize = 0;
    assert(r.deep_view() =~= threads_text(all.take(0), shown@));
    while i < n
        invariant
            n == threads@.len(),
            all == threads.deep_view(),
            i <= n,
            r.deep_view() == threads_text(all.take(i as int), shown@),
        decreases n - i,
    {
        let t = &threads[i];
        assert(all[i as int] == t.deep_view());
        let label = ui::thread_label(t.thread_id.as_str(), t.title.as_str());
        let line = row_line(
            Breakdown::Thread,
            label.as_str(),
            &t.bucket,
            shown.get(t.thread_id.as_str()),
        );
        add_line(&mut r, line);
        i += 1;
        assert(r.deep_view() =~= threads_text(all.take(i as int), shown@));
    }
    assert(all.take(n as int) =~= all);
    r
}

/// The texts of a summary.
pub struct ShownSummary {
    pub totals: ShownTotals,
    pub costs: ShownCosts,
    pub by_model: TextMap<ShownBucket>,
    /// The texts of the table that the calls are broken down by.
    pub breakdown: TextMap<ShownBucket>,
}

/// The title of a table, and the lines below it; the table by model always stands for itself.
pub open spec fn breakdown_text(
    by: Breakdown,
    rules: Seq<RuleView>,
    calls: Seq<CallView>,
    threads: Seq<ThreadRowView>,
    shown: Map<Seq<char>, ShownView>,
) -> Seq<Seq<char>> {
    match by {
        Breakdown::Model => Seq::empty(),
        Breakdown::Day => seq![""@, "Par jour"@] + table_text(
            by,
            rows_of(buckets::<ByDay>(rules, calls)),
            shown,
        ),
        Breakdown::Project => seq![""@, "Par projet"@] + table_text(
            by,
            rows_of(buckets::<ByProject>(rules, calls)),
            shown,
        ),
        Breakdown::Thread => seq![""@, "Par thread (top 20 par input)"@] + threads_text(
            threads,
            shown,
        ),
        Breakdown::Activity => seq![""@, "Par activité"@] + table_text(
            by,
            rows_of(buckets::<ByActivity>(rules, calls)),
            shown,
        ),
    }
}

fn breakdown_lines(
    by: Breakdown,
    calls: &Vec<InferenceCall>,
    engine: &PricingEngine,
    threads: &Vec<ThreadRow>,
    shown: &TextMap<ShownBucket>,
) -> (r: Vec<String>)
    ensures
        r.deep_view() == breakdown_text(
            by,
            engine.codex.rules.deep_view(),
            calls.deep_view(),
            threads.deep_view(),
            shown@,
        ),
{
    let mut r = no_lines();
    match by {
        Breakdown::Model => {},
        Breakdown::Day => {
            add_line(&mut r, "".to_owned());
            add_line(&mut r, "Par jour".to_owned());
            add_lines(&mut r, table_lines(by, &aggregate::by_day(calls, engine), shown));
        },
        Breakdown::Project => {
            add_line(&mut r, "".to_owned());
            add_line(&mut r, "Par projet".to_owned());
            add_lines(&mut r, table_lines(by, &aggregate::by_project(calls, engine), shown));
        },
        Breakdown::Thread => {
            add_line(&mut r, "".to_owned());
            add_line(&mut r, "Par thread (top 20 par input)".to_owned());
            add_lines(&mut r, threads_lines(threads, shown));
        },
        Breakdown::Activity => {
            add_line(&mut r, "".to_owned());
            add_line(&mut r, "Par activité".to_owned());
            add_lines(&mut r, table_lines(by, &aggregate::by_activity(calls, engine), shown));
        },
    }
    r
}

/// Lines with a mark before each.
pub open spec fn marked(lines: Seq<Seq<char>>) -> Seq<Seq<char>> {
    Seq::new(lines.len(), |i: int| "  ! "@ + lines[i])
}

/// Lines under a heading; nothing where there are none.
pub open spec fn headed(heading: Seq<char>, lines: Seq<Seq<char>>) -> Seq<Seq<char>> {
    if lines.len() == 0 {
        Seq::empty()
    } else {
        seq![""@, heading] + marked(lines)
    }
}

fn headed_lines(heading: &str, lines: &Vec<String>) -> (r: Vec<String>)
    ensures
        r.deep_view() == headed(heading@, lines.deep_view()),
{
    let n: usize = lines.len();
    let ghost all = lines.deep_view();
    let mut r = no_lines();
    if n == 0 {
        return r;
    }
    add_line(&mut r, "".to_owned());
    add_line(&mut r, heading.to_owned());
    let ghost head = seq![""@, heading@];
    let mut i: usize = 0;
    assert(r.deep_view() =~= head + marked(all.take(0)));
    while i < n
        invariant
            n == lines@.len(),
            all == lines.deep_view(),
            i <= n,
            r.deep_view() == head + marked(all.take(i as int)),
        decreases n - i,
    {
        assert(all[i as int] == lines@[i as int]@);
        add_line(&mut r, text::join("  ! ", lines[i].as_str()));
        i += 1;
        assert(r.deep_view() =~= head + marked(all.take(i as int)));
    }
    assert(all.take(n as int) =~= all);
    r
}

/// The note on service tiers that ends a summary.
pub open spec fn tier_note(no_tier: u64, calls: nat) -> Seq<Seq<char>> {
    if no_tier > 0 {
        seq![
            "Note : service tier non déterminé pour "@ + int_text(no_tier)
                + " appel(s) — valorisés au tarif standard (fast/régional non appliqués)."@,
        ]
    } else if calls > 0 {
        seq!["Note : service tier déterminé pour tous les appels (régional jamais supposé)."@]
    } else {
        Seq::empty()
    }
}

/// The calls of each confidence and tier.
pub open spec fn shares_of(calls: Seq<CallView>) -> Shares {
    Shares {
        exact: calls_with_confidence(calls, ModelConfidence::Exact) as u64,
        inferred: calls_with_confidence(calls, ModelConfidence::Inferred) as u64,
        unknown: calls_with_confidence(calls, ModelConfidence::Unknown) as u64,
        fast: calls_in_tier(calls, ServiceTier::Fast) as u64,
        no_tier: calls_in_tier(calls, ServiceTier::Unknown) as u64,
    }
}

/// A summary, in lines.
pub open spec fn summary_text(
    rules: Seq<RuleView>,
    calls: Seq<CallView>,
    by: Breakdown,
    period: Seq<char>,
    threads: Seq<ThreadRowView>,
    anomalies: Seq<Seq<char>>,
    shown: ShownSummary,
) -> Seq<Seq<char>> {
    let total = bucket_sum(rules, calls);
    let shares = shares_of(calls);
    seq!["Periode            "@ + period] + totals_text(
        total.usage,
        calls.len() as u64,
        shown.totals,
    ) + seq![""@] + costs_text(total, shares, shown.costs) + seq![""@, "Par modèle"@] + table_text(
        Breakdown::Model,
        rows_of(buckets::<ByModel>(rules, calls)),
        shown.by_model@,
    ) + breakdown_text(by, rules, calls, threads, shown.breakdown@) + headed(
        "Anomalies"@,
        anomalies,
    ) + seq![""@] + tier_note(shares.no_tier, calls.len())
}

/// Tells what the calls of a period come to. `threads` are those to list where the calls are
/// broken down by thread.
pub fn summary_lines(
    calls: &Vec<InferenceCall>,
    engine: &PricingEngine,
    by: Breakdown,
    from: &Option<String>,
    to: &Option<String>,
    threads: &Vec<ThreadRow>,
    anomalies: &Vec<String>,
    shown: &ShownSummary,
) -> (r: Vec<String>)
    ensures
        r.deep_view() == summary_text(
            engine.codex.rules.deep_view(),
            calls.deep_view(),
            by,
            period_text(from.deep_view(), to.deep_view()),
            threads.deep_view(),
            anomalies.deep_view(),
            *shown,
        ),
{
    let total = aggregate::total_of(calls, engine);
    let (exact, inferred, unknown) = aggregate::confidence_stats(calls);
    let (fast, standard, no_tier) = pricing::tier_stats(calls);
    let shares = Shares { exact, inferred, unknown, fast, no_tier };
    assert(shares == shares_of(calls.deep_view()));
    let mut r = no_lines();
    let period = ui::period_note(from, to);
    add_line(&mut r, text::join("Periode            ", period.as_str()));
    add_lines(&mut r, totals_lines(&total.usage, calls.len() as u64, &shown.totals));
    add_line(&mut r, "".to_owned());
    add_lines(&mut r, costs_lines(&total, &shares, &shown.costs));
    add_line(&mut r, "".to_owned());
    add_line(&mut r, "Par modèle".to_owned());
    add_lines(
        &mut r,
        table_lines(Breakdown::Model, &aggregate::by_model(calls, engine), &shown.by_model),
    );
    add_lines(&mut r, breakdown_lines(by, calls, engine, threads, &shown.breakdown));
    add_lines(&mut r, headed_lines("Anomalies", anomalies));
    add_line(&mut r, "".to_owned());
    if no_tier > 0 {
        let mut line = grouped_line("Note : service tier non déterminé pour ", no_tier);
        line.append(" appel(s) — valorisés au tarif standard (fast/régional non appliqués).");
        add_line(&mut r, line);
    } else if calls.len() > 0 {
        add_line(
            &mut r,
            "Note : service tier déterminé pour tous les appels (régional jamais supposé).".to_owned(),
        );
    }
    assert(r.deep_view() =~= summary_text(
        engine.codex.rules.deep_view(),
        calls.deep_view(),
        by,
        period_text(from.deep_view(), to.deep_view()),
        threads.deep_view(),
        anomalies.deep_view(),
        *shown,
    ));
    r
}

/// The number of threads that a summary lists.
pub const LISTED_THREADS: u32 = 20;

/// What is unusual in some calls.
pub open spec fn anomalies_in(rules: Seq<RuleView>, calls: Seq<CallView>) -> Seq<AnomalyView> {
    anomalies_of(
        calls,
        buckets::<ByDay>(rules, calls),
        buckets::<ByActivity>(rules, calls),
        bucket_sum(rules, calls).long_context_calls,
    )
}

/// Anomalies in words, each with its share.
pub open spec fn anomaly_texts(list: Seq<AnomalyView>, shares: Seq<Seq<char>>) -> Seq<Seq<char>> {
    Seq::new(list.len(), |i: int| anomaly_text(list[i], shares[i]))
}

/// These are the lines of the summary of some calls: it lists the threads with the most input and
/// all that is unusual.
pub open spec fn is_summary_of(
    lines: Seq<Seq<char>>,
    rules: Seq<RuleView>,
    calls: Seq<CallView>,
    by: Breakdown,
    period: Seq<char>,
    shares: Seq<Seq<char>>,
    shown: ShownSummary,
) -> bool {
    exists|threads: Seq<ThreadRowView>| #[trigger]
        are_top_threads(threads, rules, calls, LISTED_THREADS as nat) && lines == summary_text(
            rules,
            calls,
            by,
            period,
            threads,
            anomaly_texts(anomalies_in(rules, calls), shares),
            shown,
        )
}

/// Finds what is unusual in some calls.
pub fn find_anomalies(calls: &Vec<InferenceCall>, engine: &PricingEngine) -> (r: Vec<Anomaly>)
    ensures
        r.deep_view() == anomalies_in(engine.codex.rules.deep_view(), calls.deep_view()),
{
    aggregate::detect_anomalies(
        calls,
        &aggregate::by_day(calls, engine),
        &aggregate::by_activity(calls, engine),
        aggregate::total_of(calls, engine).long_context_calls,
    )
}

fn anomaly_lines(list: &Vec<Anomaly>, shares: &Vec<String>) -> (r: Vec<String>)
    requires
        shares@.len() == list@.len(),
    ensures
        r.deep_view() == anomaly_texts(list.deep_view(), shares.deep_view()),
{
    let n: usize = list.len();
    let ghost (all, told) = (list.deep_view(), shares.deep_view());
    let mut r = no_lines();
    let mut i: usize = 0;
    assert(r.deep_view() =~= anomaly_texts(all.take(0), told));
    while i < n
        invariant
            i <= n,
            n == list@.len(),
            n == shares@.len(),
            all == list.deep_view(),
            told == shares.deep_view(),
            r.deep_view() == anomaly_texts(all.take(i as int), told),
        decreases n - i,
    {
        assert(all[i as int] == list@[i as int].deep_view());
        assert(told[i as int] == shares@[i as int]@);
        add_line(&mut r, anomaly_line(&list[i], shares[i].as_str()));
        i += 1;
        assert(r.deep_view() =~= anomaly_texts(all.take(i as int), told));
    }
    assert(all.take(n as int) =~= all);
    r
}

/// Summarises calls: the threads to list and what is unusual are found in the calls. `shares` are
/// the fractions that the anomalies are about, in their order.
pub fn summarize(
    calls: &Vec<InferenceCall>,
    engine: &PricingEngine,
    by: Breakdown,
    from: &Option<String>,
    to: &Option<String>,
    shares: &Vec<String>,
    shown: &ShownSummary,
) -> (r: Vec<String>)
    requires
        shares@.len() == anomalies_in(engine.codex.rules.deep_view(), calls.deep_view()).len(),
    ensures
        is_summary_of(
            r.deep_view(),
            engine.codex.rules.deep_view(),
            calls.deep_view(),
            by,
            period_text(from.deep_view(), to.deep_view()),
            shares.deep_view(),
            *shown,
        ),
{
    let threads = ui::top_threads(calls, engine, Some(LISTED_THREADS));
    let anomalies = find_anomalies(calls, engine);
    assert(anomalies.deep_view().len() == anomalies@.len());
    let told = anomaly_lines(&anomalies, shares);
    summary_lines(calls, engine, by, from, to, &threads, &told, shown)
}

/// An anomaly in words; `share` is the fraction that it is about, where it is about one.
pub open spec fn anomaly_text(a: AnomalyView, share: Seq<char>) -> Seq<char> {
    match a {
        AnomalyView::AutoReview { input, total } => "Auto Review = "@ + share
            + " % de l'usage total (> 10 %)"@,
        AnomalyView::LongContext(n) => decimal_of(n as nat) + " appel(s) au-dela de 272K input"@,
        AnomalyView::LowCache { thread, cached, input } => "Thread "@ + thread + " : cache hit "@
            + share + " % (< 70 %)"@,
        AnomalyView::HeavyThread { thread, input } => "Thread "@ + thread + " : "@ + decimal_of(
            input as nat,
        ) + " tokens d'input (> 10M)"@,
        AnomalyView::BusyDay { day, input, total, days } => day + " : "@ + share
            + "x la moyenne quotidienne"@,
    }
}

/// Puts an anomaly into words.
pub fn anomaly_line(a: &Anomaly, share: &str) -> (r: String)
    ensures
        r@ == anomaly_text(a.deep_view(), share@),
{
    match a {
        Anomaly::AutoReview { input, total } => {
            let mut r = text::join("Auto Review = ", share);
            r.append(" % de l'usage total (> 10 %)");
            r
        },
        Anomaly::LongContext(n) => text::join(
            text::decimal(*n).as_str(),
            " appel(s) au-dela de 272K input",
        ),
        Anomaly::LowCache { thread, cached, input } => {
            let mut r = text::join("Thread ", thread.as_str());
            r.append(" : cache hit ");
            r.append(share);
            r.append(" % (< 70 %)");
            r
        },
        Anomaly::HeavyThread { thread, input } => {
            let mut r = text::join("Thread ", thread.as_str());
            r.append(" : ");
            r.append(text::decimal(*input).as_str());
            r.append(" tokens d'input (> 10M)");
            r
        },
        Anomaly::BusyDay { day, input, total, days } => {
            let mut r = text::join(day.as_str(), " : ");
            r.append(share);
            r.append("x la moyenne quotidienne");
            r
        },
    }
}

/// What a scan met, in lines.
pub open spec fn scan_text(
    d: DiagnosticsView,
    usage: TokenUsage,
    calls: u64,
    shown: ShownTotals,
) -> Seq<Seq<char>> {
    totals_text(usage, calls, shown) + seq![
        "Files  "@ + decimal_of(d.files_found as nat) + " found / "@ + decimal_of(
            d.files_parsed as nat,
        ) + " parsed / "@ + decimal_of(d.files_failed as nat) + " failed ("@ + decimal_of(
            d.archived_files as nat,
        ) + " archived)"@,
        "Errors "@ + decimal_of(d.parse_errors.len()),
    ]
}

/// Tells what a scan met; `usage` and `calls` are those of the period.
pub fn scan_lines(d: &Diagnostics, usage: &TokenUsage, calls: u64, shown: &ShownTotals) -> (r: Vec<
    String,
>)
    ensures
        r.deep_view() == scan_text(d@, *usage, calls, *shown),
{
    let mut r = totals_lines(usage, calls, shown);
    let mut line = counted("Files  ", d.files_found as u64);
    line.append(" found / ");
    line.append(text::decimal(d.files_parsed as u64).as_str());
    line.append(" parsed / ");
    line.append(text::decimal(d.files_failed as u64).as_str());
    line.append(" failed (");
    line.append(text::decimal(d.archived_files as u64).as_str());
    line.append(" archived)");
    add_line(&mut r, line);
    add_line(&mut r, counted("Errors ", d.parse_errors.len() as u64));
    assert(r.deep_view() =~= scan_text(d@, *usage, calls, *shown));
    r
}

/// A scan in the report on the state of things.
pub open spec fn met_text(d: DiagnosticsView) -> Seq<Seq<char>> {
    seq![
        "Scan frais (memoire)"@,
        "  Rollout files found   "@ + decimal_of(d.files_found as nat),
        "  Rollout files parsed  "@ + decimal_of(d.files_parsed as nat),
        "  Lines scanned         "@ + int_text(d.lines_total),
        "  Usage records         "@ + int_text(d.usage_records),
        "  Duplicates ignored    "@ + int_text(d.duplicates_ignored),
        "  Legacy records        "@ + int_text(d.legacy_records),
        "  Legacy null info      "@ + int_text(d.legacy_null_info),
        "  Parsing errors        "@ + decimal_of(d.parse_errors.len()),
        "  Subset violations     "@ + decimal_of(d.subset_violations as nat),
    ]
}

fn met_lines(d: &Diagnostics) -> (r: Vec<String>)
    ensures
        r.deep_view() == met_text(d@),
{
    let mut r = no_lines();
    add_line(&mut r, "Scan frais (memoire)".to_owned());
    add_line(&mut r, counted("  Rollout files found   ", d.files_found as u64));
    add_line(&mut r, counted("  Rollout files parsed  ", d.files_parsed as u64));
    add_line(&mut r, grouped_line("  Lines scanned         ", d.lines_total));
    add_line(&mut r, grouped_line("  Usage records         ", d.usage_records));
    add_line(&mut r, grouped_line("  Duplicates ignored    ", d.duplicates_ignored));
    add_line(&mut r, grouped_line("  Legacy records        ", d.legacy_records));
    add_line(&mut r, grouped_line("  Legacy null info      ", d.legacy_null_info));
    add_line(&mut r, counted("  Parsing errors        ", d.parse_errors.len() as u64));
    add_line(&mut r, counted("  Subset violations     ", d.subset_violations));
    assert(r.deep_view() =~= met_text(d@));
    r
}

/// What the store holds, as far as the report on the state of things tells it.
pub struct Held {
    pub calls: u64,
    pub totals: TokenUsage,
    /// The input, in its unit.
    pub input: String,
    /// Tokens over the life of all threads.
    pub lifetime: i64,
}

/// The store in the report.
pub open spec fn held_text(h: Held) -> Seq<Seq<char>> {
    seq![
        "Base SQLite"@,
        "  Appels stockes        "@ + int_text(h.calls),
        "  Input                 "@ + int_text(h.totals.input_tokens),
        "  Cached                "@ + int_text(h.totals.cached_input_tokens),
        "  Output                "@ + int_text(h.totals.output_tokens),
    ]
}

fn held_lines(h: &Held) -> (r: Vec<String>)
    ensures
        r.deep_view() == held_text(*h),
{
    let mut r = no_lines();
    add_line(&mut r, "Base SQLite".to_owned());
    add_line(&mut r, grouped_line("  Appels stockes        ", h.calls));
    add_line(&mut r, grouped_line("  Input                 ", h.totals.input_tokens));
    add_line(&mut r, grouped_line("  Cached                ", h.totals.cached_input_tokens));
    add_line(&mut r, grouped_line("  Output                ", h.totals.output_tokens));
    assert(r.deep_view() =~= held_text(*h));
    r
}

/// A scan and the store side by side. They agree where all their counts are equal.
pub open spec fn compared_text(
    fresh_totals: TokenUsage,
    fresh_calls: u64,
    fresh_input: Seq<char>,
    h: Held,
) -> Seq<Seq<char>> {
    seq![
        "Run consistency check"@,
        "  scan frais (memoire)  "@ + fresh_input + " tokens input / "@ + int_text(fresh_calls)
            + " appels"@,
        "  base SQLite           "@ + h.input@ + " tokens input / "@ + int_text(h.calls)
            + " appels"@,
        "  state DB lifetime     "@ + int_text(
            if h.lifetime < 0 {
                0
            } else {
                h.lifetime as u64
            },
        ) + " tokens_used (indication UNIQUEMENT, jamais source de totaux)"@,
        "  Status: "@ + status_of(h.totals, fresh_totals) + if h.totals == fresh_totals {
            ""@
        } else {
            " — relancer `import --full`"@
        },
    ]
}

/// Whether the store agrees with a fresh scan, in a word.
pub open spec fn status_of(held: TokenUsage, fresh: TokenUsage) -> Seq<char> {
    if held == fresh {
        "CONSISTENT"@
    } else {
        "DIVERGENCE"@
    }
}

/// Tells whether the store agrees with a fresh scan: all counts are equal, or it does not.
pub fn consistency_status(held: &TokenUsage, fresh: &TokenUsage) -> (r: &'static str)
    ensures
        r@ == status_of(*held, *fresh),
{
    if *held == *fresh {
        "CONSISTENT"
    } else {
        "DIVERGENCE"
    }
}

fn compared_lines(
    fresh_totals: &TokenUsage,
    fresh_calls: u64,
    fresh_input: &str,
    h: &Held,
) -> (r: Vec<String>)
    ensures
        r.deep_view() == compared_text(*fresh_totals, fresh_calls, fresh_input@, *h),
{
    let mut r = no_lines();
    add_line(&mut r, "Run consistency check".to_owned());
    let mut line = text::join("  scan frais (memoire)  ", fresh_input);
    line.append(" tokens input / ");
    line.append(fmt_int(fresh_calls).as_str());
    line.append(" appels");
    add_line(&mut r, line);
    let mut line = text::join("  base SQLite           ", h.input.as_str());
    line.append(" tokens input / ");
    line.append(fmt_int(h.calls).as_str());
    line.append(" appels");
    add_line(&mut r, line);
    let lifetime: u64 = if h.lifetime < 0 {
        0
    } else {
        h.lifetime as u64
    };
    let mut line = grouped_line("  state DB lifetime     ", lifetime);
    line.append(" tokens_used (indication UNIQUEMENT, jamais source de totaux)");
    add_line(&mut r, line);
    let mut line = text::join("  Status: ", consistency_status(&h.totals, fresh_totals));
    line.append(
        if h.totals == *fresh_totals {
            ""
        } else {
            " — relancer `import --full`"
        },
    );
    add_line(&mut r, line);
    assert(r.deep_view() =~= compared_text(*fresh_totals, fresh_calls, fresh_input@, *h));
    r
}

/// The threads of each activity, in lines.
pub open spec fn activities_text(counts: Option<Map<Seq<char>, u64>>) -> Seq<Seq<char>> {
    seq!["Threads state db (enrichissement)"@] + match counts {
        Some(m) => activity_rows(rows_of(m)),
        None => seq!["  state_5.sqlite indisponible — enrichissement desactive"@],
    }
}

/// One line for each activity.
pub open spec fn activity_rows(rows: Seq<(Seq<char>, u64)>) -> Seq<Seq<char>> {
    Seq::new(
        rows.len(),
        |i: int| "  "@ + left_aligned(rows[i].0, 14) + " "@ + decimal_of(rows[i].1 as nat),
    )
}

/// The counts of a map that may be absent.
pub open spec fn counts_view(counts: Option<TextMap<u64>>) -> Option<Map<Seq<char>, u64>> {
    match counts {
        Some(m) => Some(m@),
        None => None,
    }
}

fn activities_lines(counts: &Option<TextMap<u64>>) -> (r: Vec<String>)
    ensures
        r.deep_view() == activities_text(counts_view(*counts)),
{
    let mut r = no_lines();
    add_line(&mut r, "Threads state db (enrichissement)".to_owned());
    let ghost head = seq!["Threads state db (enrichissement)"@];
    assert(r.deep_view() =~= head);
    match counts {
        Some(m) => {
            let n: usize = m.len();
            let ghost rows = m.rows();
            proof {
                lemma_rows_of(rows);
            }
            let mut i: usize = 0;
            assert(r.deep_view() =~= head + activity_rows(rows.take(0)));
            while i < n
                invariant
                    n == rows.len(),
                    rows == m.rows(),
                    i <= n,
                    r.deep_view() == head + activity_rows(rows.take(i as int)),
                decreases n - i,
            {
                let name = m.key_at(i);
                let count: u64 = *m.value_at(i);
                assert(rows[i as int] == (name@, count));
                let mut line = text::join("  ", align_left(name.as_str(), 14).as_str());
                line.append(" ");
                line.append(text::decimal(count).as_str());
                add_line(&mut r, line);
                i += 1;
                assert(r.deep_view() =~= head + activity_rows(rows.take(i as int)));
            }
            assert(rows.take(n as int) =~= rows);
        },
        None => {
            add_line(
                &mut r,
                "  state_5.sqlite indisponible — enrichissement desactive".to_owned(),
            );
        },
    }
    assert(r.deep_view() =~= activities_text(counts_view(*counts)));
    r
}

/// The catalogues in the report.
pub open spec fn catalogs_text(engine: PricingEngine) -> Seq<Seq<char>> {
    seq![
        "Pricing catalog"@,
        "  "@ + engine.codex.catalog@ + " v"@ + engine.codex.version@ + " (vérifié "@
            + engine.codex.last_verified@ + ", "@ + engine.codex.source_url@ + ")"@,
        "  "@ + engine.api.catalog@ + " v"@ + engine.api.version@ + " (vérifié "@
            + engine.api.last_verified@ + ")"@,
    ]
}

fn catalogs_lines(engine: &PricingEngine) -> (r: Vec<String>)
    ensures
        r.deep_view() == catalogs_text(*engine),
{
    let mut r = no_lines();
    add_line(&mut r, "Pricing catalog".to_owned());
    let mut line = text::join("  ", engine.codex.catalog.as_str());
    line.append(" v");
    line.append(engine.codex.version.as_str());
    line.append(" (vérifié ");
    line.append(engine.codex.last_verified.as_str());
    line.append(", ");
    line.append(engine.codex.source_url.as_str());
    line.append(")");
    add_line(&mut r, line);
    let mut line = text::join("  ", engine.api.catalog.as_str());
    line.append(" v");
    line.append(engine.api.version.as_str());
    line.append(" (vérifié ");
    line.append(engine.api.last_verified.as_str());
    line.append(")");
    add_line(&mut r, line);
    assert(r.deep_view() =~= catalogs_text(*engine));
    r
}

/// The report on the state of things, in lines.
pub open spec fn doctor_text(
    fresh: ScanOutcome,
    db_path: Seq<char>,
    h: Held,
    counts: Option<Map<Seq<char>, u64>>,
    engine: PricingEngine,
    fresh_input: Seq<char>,
) -> Seq<Seq<char>> {
    let d = fresh.diagnostics@;
    seq![
        "Codex home            "@ + fresh.codex_home@,
        "Base                  "@ + db_path,
        ""@,
    ] + met_text(d) + seq![""@] + held_text(h) + seq![""@] + compared_text(
        fresh.totals,
        fresh.calls@.len() as u64,
        fresh_input,
        h,
    ) + seq![""@] + activities_text(counts) + seq![""@] + catalogs_text(engine) + headed(
        "Erreurs de parsing (max 10) :"@,
        first_ten(d.parse_errors),
    )
}

/// Tells the state of things: a fresh scan held against the store. `fresh_input` is the input of
/// the scan in its unit.
pub fn doctor_lines(
    fresh: &ScanOutcome,
    db_path: &str,
    h: &Held,
    counts: &Option<TextMap<u64>>,
    engine: &PricingEngine,
    fresh_input: &str,
) -> (r: Vec<String>)
    ensures
        r.deep_view() == doctor_text(
            *fresh,
            db_path@,
            *h,
            counts_view(*counts),
            *engine,
            fresh_input@,
        ),
{
    let d = &fresh.diagnostics;
    let mut r = no_lines();
    add_line(&mut r, text::join("Codex home            ", fresh.codex_home.as_str()));
    add_line(&mut r, text::join("Base                  ", db_path));
    add_line(&mut r, "".to_owned());
    add_lines(&mut r, met_lines(d));
    add_line(&mut r, "".to_owned());
    add_lines(&mut r, held_lines(h));
    add_line(&mut r, "".to_owned());
    add_lines(&mut r, compared_lines(&fresh.totals, fresh.calls.len() as u64, fresh_input, h));
    add_line(&mut r, "".to_owned());
    add_lines(&mut r, activities_lines(counts));
    add_line(&mut r, "".to_owned());
    add_lines(&mut r, catalogs_lines(engine));
    let errors = ui::shown_errors(&d.parse_errors);
    add_lines(&mut r, headed_lines("Erreurs de parsing (max 10) :", &errors));
    assert(r.deep_view() =~= doctor_text(
        *fresh,
        db_path@,
        *h,
        counts_view(*counts),
        *engine,
        fresh_input@,
    ));
    r
}

} // verus!
