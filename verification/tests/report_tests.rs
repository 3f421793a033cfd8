use codex_meter::aggregate::Anomaly;
use codex_meter::import::ImportReport;
use codex_meter::model::InferenceCall;
use codex_meter::model::ModelConfidence;
use codex_meter::model::ServiceTier;
use codex_meter::model::SourceFormat;
use codex_meter::model::TokenUsage;
use codex_meter::pricing::PricingCatalog;
use codex_meter::pricing::PricingEngine;
use codex_meter::pricing::PricingRule;
use codex_meter::report::anomaly_line;
use codex_meter::report::consistency_status;
use codex_meter::report::doctor_lines;
use codex_meter::report::find_anomalies;
use codex_meter::report::import_lines;
use codex_meter::report::scan_lines;
use codex_meter::report::summarize;
use codex_meter::report::summary_lines;
use codex_meter::report::totals_lines;
use codex_meter::report::Breakdown;
use codex_meter::report::Held;
use codex_meter::report::ShownBucket;
use codex_meter::report::ShownCosts;
use codex_meter::report::ShownSummary;
use codex_meter::report::ShownTotals;
use codex_meter::scan::scan;
use codex_meter::text_map::TextMap;
use codex_meter::ui::ThreadRow;
use codex_meter::ui::top_threads;

fn catalog(name: &str, models: &[&str]) -> PricingCatalog {
    PricingCatalog {
        catalog: name.to_string(),
        profile: name.to_string(),
        version: "v1".to_string(),
        currency: "USD".to_string(),
        unit: "per_1m_tokens".to_string(),
        source_url: "https://example.org".to_string(),
        last_verified: "2026-09-23".to_string(),
        notes: Vec::new(),
        rules: models
            .iter()
            .map(|m| PricingRule {
                model: m.to_string(),
                aliases: Vec::new(),
                effective_from: None,
                effective_until: None,
                has_cache_write_rate: false,
                long_context: false,
                long_context_threshold: 272_000,
                has_fast_multiplier: true,
            })
            .collect(),
    }
}

fn engine() -> PricingEngine {
    PricingEngine { codex: catalog("codex", &["gpt-6-astra"]), api: catalog("api", &[]) }
}

fn call(uid: &str, model: Option<&str>, thread: &str, tier: ServiceTier) -> InferenceCall {
    InferenceCall {
        event_uid: uid.to_string(),
        response_id: None,
        timestamp_utc: Some("2026-09-15T12:00:00Z".to_string()),
        session_id: None,
        thread_id: Some(thread.to_string()),
        turn_id: None,
        root_turn_id: None,
        model_slug: model.map(|m| m.to_string()),
        model_confidence: if model.is_some() {
            ModelConfidence::Exact
        } else {
            ModelConfidence::Unknown
        },
        service_tier: tier,
        project_path: None,
        activity: None,
        parent_thread_id: None,
        thread_title: Some("A title".to_string()),
        usage: TokenUsage {
            input_tokens: 1_000,
            cached_input_tokens: 500,
            cache_write_input_tokens: 0,
            output_tokens: 10,
            reasoning_output_tokens: 0,
            total_tokens: 1_010,
        },
        source_format: SourceFormat::TokenUsageRecord,
        source_file: "f".to_string(),
        source_ordinal: 0,
        archived: false,
    }
}

fn totals() -> ShownTotals {
    ShownTotals {
        input: "1.0 K".to_string(),
        cached: "500".to_string(),
        ordinary: "500".to_string(),
        output: "10".to_string(),
        hit: "50.0".to_string(),
    }
}

fn shown(keys: &[&str]) -> TextMap<ShownBucket> {
    let mut out: TextMap<ShownBucket> = TextMap::new();
    for k in keys {
        let texts = ShownBucket {
            input: "371.0 M".to_string(),
            cached: "358.6 M".to_string(),
            output: "2.5 M".to_string(),
            hit: "96.7%".to_string(),
            cost: "$550.68".to_string(),
        };
        out.insert(k.to_string(), texts);
    }
    out
}

fn shown_summary() -> ShownSummary {
    ShownSummary {
        totals: totals(),
        costs: ShownCosts {
            equivalent: "$730.28".to_string(),
            without_cache: "$4,984.61".to_string(),
            savings: "$4,254.33".to_string(),
            savings_share: "85.3 %".to_string(),
            confidence: "87.4".to_string(),
            unpriced: "1.0 K".to_string(),
        },
        by_model: shown(&["gpt-6-astra", "<unknown>"]),
        breakdown: shown(&["2026-09-15", "<unknown>", "t", "unknown"]),
    }
}

fn summary(calls: &Vec<InferenceCall>, by: Breakdown, anomalies: &Vec<String>) -> Vec<String> {
    let texts = shown_summary();
    let threads: Vec<ThreadRow> = top_threads(calls, &engine(), Some(20));
    summary_lines(calls, &engine(), by, &Some("2026-09-12".to_string()), &None, &threads, anomalies, &texts)
}

#[test]
fn a_summary_is_told_line_by_line() {
    let calls = vec![call("a", Some("gpt-6-astra"), "t", ServiceTier::Standard)];
    assert_eq!(
        summary(&calls, Breakdown::Day, &Vec::new()),
        vec![
            "Periode            depuis 2026-09-12",
            "Calls        1",
            "Input        1.0 K",
            "Cached       500",
            "Non cached   500",
            "Output       10",
            "Cache hit    50.0 %",
            "",
            "Equivalent Codex   $730.28",
            "Sans cache         $4,984.61",
            "Economie cache     $4,254.33 (85.3 %)",
            "Confiance tarif    87.4 %",
            "",
            "Par modèle",
            "  gpt-6-astra            in   371.0 M  cached   358.6 M  out     2.5 M  hit 96.7%  calls      1  $550.68",
            "",
            "Par jour",
            "  2026-09-15   in   371.0 M  out     2.5 M  hit 96.7%  calls      1  $550.68",
            "",
            "Note : service tier déterminé pour tous les appels (régional jamais supposé).",
        ]
    );
}

#[test]
fn a_summary_tells_what_is_missing() {
    let calls = vec![
        call("a", Some("gpt-6-astra"), "t", ServiceTier::Fast),
        call("b", None, "t", ServiceTier::Unknown),
    ];
    let lines = summary(&calls, Breakdown::Thread, &vec!["odd".to_string()]);
    let has = |line: &str| lines.iter().any(|l| l == line);
    assert!(has("Coût N/A           1 appels / 1.0 K tokens sans tarif connu"));
    assert!(has("Confiance modèle   exact 1 · inferred 0 · unknown 1"));
    assert!(has("Fast mode          1 appel(s) — multiplicateur fast appliqué"));
    assert!(has("  <unknown>              in   371.0 M  cached   358.6 M  out     2.5 M  hit 96.7%  calls      1  coût N/A"));
    assert!(has("Par thread (top 20 par input)"));
    assert!(has(&format!("  {:<64} in   371.0 M  calls      2  $550.68", "t — A title")));
    assert!(has("Anomalies"));
    assert!(has("  ! odd"));
    assert_eq!(
        lines.last().unwrap(),
        "Note : service tier non déterminé pour 1 appel(s) — valorisés au tarif standard (fast/régional non appliqués)."
    );
    let lines = summary(&calls, Breakdown::Activity, &Vec::new());
    assert!(lines.contains(&"  unknown        in   371.0 M  out     2.5 M  calls      2  $550.68".to_string()));
    let lines = summary(&calls, Breakdown::Project, &Vec::new());
    assert!(lines.contains(&"  <unknown>                in   371.0 M  calls      2  $550.68".to_string()));
    let none = summary(&Vec::new(), Breakdown::Model, &Vec::new());
    assert_eq!(none.last().unwrap(), "");
    assert!(!none.iter().any(|l| l.starts_with("Cache hit")));
}

#[test]
fn a_summary_lists_the_threads_with_the_most_input() {
    let mut calls: Vec<InferenceCall> = Vec::new();
    for i in 0..22u64 {
        let name = format!("t{:02}", i);
        let mut c = call(&name, Some("gpt-6-astra"), &name, ServiceTier::Standard);
        c.thread_title = None;
        c.usage.input_tokens = 300_000 + i;
        c.usage.cached_input_tokens = 300_000;
        calls.push(c);
    }
    calls[0].usage.input_tokens = 10_000_001;
    let mut engine = engine();
    engine.codex.rules[0].long_context = true;
    let found = find_anomalies(&calls, &engine);
    let shares: Vec<String> = found.iter().map(|_| "3.0".to_string()).collect();
    let lines = summarize(&calls, &engine, Breakdown::Thread, &None, &None, &shares, &shown_summary());
    let at = lines.iter().position(|l| l == "Par thread (top 20 par input)").unwrap();
    let named = |i: usize| -> String { lines[at + 1 + i].split_whitespace().next().unwrap().to_string() };
    assert_eq!(named(0), "t00");
    assert_eq!(named(1), "t21");
    assert_eq!(named(19), "t03");
    assert_eq!(lines[at + 21], "");
    assert_eq!(lines[at + 22], "Anomalies");
    assert_eq!(lines[at + 23], "  ! 22 appel(s) au-dela de 272K input");
    assert_eq!(lines[at + 24], "  ! Thread t00 : cache hit 3.0 % (< 70 %)");
    assert_eq!(lines[at + 25], "  ! Thread t00 : 10000001 tokens d'input (> 10M)");
    assert_eq!(found.len(), 3);
}

#[test]
fn an_import_is_told_line_by_line() {
    let mut rep = ImportReport::default();
    rep.files_seen = 3;
    rep.bytes_read = 1_234;
    rep.calls_enriched = 1_000;
    rep.duration_ms = 12;
    let plain = import_lines(&rep);
    assert_eq!(
        plain,
        vec![
            "Import termine en 12 ms",
            "  Fichiers vus       3",
            "  Fichiers ignores   0 (checkpoint a jour)",
            "  Fichiers modifies  0",
            "  Octets lus         1,234",
            "  Appels insérés     0",
            "  Doublons ignores   0",
            "  Erreurs parsing    0",
            "  Threads enrichis   0 (1,000 calls touches)",
        ]
    );
    rep.legacy_pruned = 2;
    rep.tiers_repaired = 1;
    rep.repriced = true;
    rep.priced_calls = 4;
    let full = import_lines(&rep);
    assert_eq!(full.len(), 12);
    assert_eq!(full[7], "  Legacy purges      2 (session deja couverte en moderne)");
    assert_eq!(full[10], "  Tiers repares      1");
    assert_eq!(full[11], "  Re-pricing         4 appels valorises");
}

#[test]
fn a_scan_is_held_against_the_store() {
    let out = scan("/home".to_string(), Vec::new(), &Vec::new());
    assert_eq!(
        scan_lines(&out.diagnostics, &out.totals, 0, &totals())[5..].to_vec(),
        vec!["Files  0 found / 0 parsed / 0 failed (0 archived)", "Errors 0"]
    );
    assert_eq!(totals_lines(&out.totals, 7, &totals()).len(), 5);
    let mut held = Held {
        calls: 0,
        totals: TokenUsage::default(),
        input: "0".to_string(),
        lifetime: -3,
    };
    let lines = doctor_lines(&out, "/db", &held, &None, &engine(), "0");
    let has = |lines: &Vec<String>, line: &str| lines.iter().any(|l| l == line);
    assert_eq!(lines[0], "Codex home            /home");
    assert_eq!(lines[1], "Base                  /db");
    assert!(has(&lines, "  Rollout files found   0"));
    assert!(has(&lines, "  Status: CONSISTENT"));
    assert!(has(
        &lines,
        "  state DB lifetime     0 tokens_used (indication UNIQUEMENT, jamais source de totaux)"
    ));
    assert!(has(&lines, "  state_5.sqlite indisponible — enrichissement desactive"));
    assert!(has(&lines, "  codex vv1 (vérifié 2026-09-23, https://example.org)"));
    assert_eq!(lines.last().unwrap(), "  api vv1 (vérifié 2026-09-23)");

    held.totals.input_tokens = 1;
    let mut counts: TextMap<u64> = TextMap::new();
    counts.insert("main".to_string(), 4);
    let lines = doctor_lines(&out, "/db", &held, &Some(counts), &engine(), "0");
    assert!(has(&lines, "  Status: DIVERGENCE — relancer `import --full`"));
    assert!(has(&lines, "  main           4"));
}

#[test]
fn anomalies_in_words() {
    assert_eq!(
        anomaly_line(&Anomaly::AutoReview { input: 1, total: 2 }, "50.0"),
        "Auto Review = 50.0 % de l'usage total (> 10 %)"
    );
    assert_eq!(anomaly_line(&Anomaly::LongContext(3), ""), "3 appel(s) au-dela de 272K input");
    let thread = "t".to_string();
    assert_eq!(
        anomaly_line(&Anomaly::LowCache { thread: thread.clone(), cached: 1, input: 2 }, "50.0"),
        "Thread t : cache hit 50.0 % (< 70 %)"
    );
    assert_eq!(
        anomaly_line(&Anomaly::HeavyThread { thread, input: 10_000_001 }, ""),
        "Thread t : 10000001 tokens d'input (> 10M)"
    );
    let day = "2026-09-15".to_string();
    assert_eq!(
        anomaly_line(&Anomaly::BusyDay { day, input: 5, total: 6, days: 3 }, "2.5"),
        "2026-09-15 : 2.5x la moyenne quotidienne"
    );
}

#[test]
fn the_store_agrees_with_a_scan_or_diverges() {
    let held = TokenUsage { input_tokens: 5, ..TokenUsage::default() };
    assert_eq!(consistency_status(&held, &held), "CONSISTENT");
    assert_eq!(consistency_status(&held, &TokenUsage::default()), "DIVERGENCE");
}
