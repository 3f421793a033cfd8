use codex_meter::discovery::SourceFile;
use codex_meter::discovery::discover;
use codex_meter::export::Figures;
use codex_meter::export::export_csv;
use codex_meter::import::ImportReport;
use codex_meter::import::import;
use codex_meter::import::is_file_unchanged;
use codex_meter::import::load_calls;
use codex_meter::model::InferenceCall;
use codex_meter::model::ModelConfidence;
use codex_meter::model::ServiceTier;
use codex_meter::model::SourceFormat;
use codex_meter::model::TokenUsage;
use codex_meter::parser::FileContent;
use codex_meter::pricing::Charge;
use codex_meter::pricing::CostBreakdown;
use codex_meter::pricing::PricingCatalog;
use codex_meter::pricing::PricingEngine;
use codex_meter::pricing::PricingRule;
use codex_meter::pricing::Rate;
use codex_meter::pricing::default_threshold;
use codex_meter::pricing::default_unit;
use codex_meter::scan::ScanOutcome;
use codex_meter::scan::scan;
use codex_meter::state::StateRow;
use codex_meter::state::StateThread;
use codex_meter::state::read_threads;
use codex_meter::store::Store;
use codex_meter::store::backfill_primary_sessions;
use codex_meter::store::clear_legacy_for_session;
use codex_meter::store::db_totals;
use codex_meter::store::get_checkpoint;
use codex_meter::store::get_meta;
use codex_meter::store::get_thread_tier;
use codex_meter::store::insert_call;
use codex_meter::store::insert_pricing_result;
use codex_meter::store::is_primary_session;
use codex_meter::store::mark_primary_session;
use codex_meter::store::parse_confidence;
use codex_meter::store::reprice_all;
use codex_meter::store::set_meta;
use codex_meter::store::upsert_thread_settings;
use codex_meter::text_map::TextMap;

fn usage(input: u64, cached: u64, write: u64, output: u64, reasoning: u64) -> String {
    format!(
        "{{\"input_tokens\":{},\"cached_input_tokens\":{},\"cache_write_input_tokens\":{},\"output_tokens\":{},\"reasoning_output_tokens\":{},\"total_tokens\":{}}}",
        input, cached, write, output, reasoning, input + output
    )
}

fn meta(ts: &str, session: &str, cwd: &str) -> String {
    format!(
        "{{\"timestamp\":\"{}\",\"type\":\"session_meta\",\"payload\":{{\"id\":\"{}\",\"timestamp\":\"{}\",\"cwd\":\"{}\",\"originator\":\"Codex CLI\",\"cli_version\":\"0.156.0\"}}}}\n",
        ts, session, ts, cwd
    )
}

fn turn(ts: &str, turn: &str, model: &str) -> String {
    format!(
        "{{\"timestamp\":\"{}\",\"type\":\"turn_context\",\"payload\":{{\"turn_id\":\"{}\",\"model\":\"{}\",\"root_turn_id\":\"{}\"}}}}\n",
        ts, turn, model, turn
    )
}

fn record(ts: &str, session: &str, thread: &str, turn: &str, rid: &str, usage: &str) -> String {
    format!(
        "{{\"timestamp\":\"{}\",\"type\":\"token_usage_record\",\"payload\":{{\"session_id\":\"{}\",\"thread_id\":\"{}\",\"turn_id\":\"{}\",\"root_turn_id\":\"{}\",\"response_id\":\"{}\",\"usage\":{},\"turn_token_usage\":{{\"input_tokens\":444000000}},\"thread_token_usage\":{{\"input_tokens\":999000000000}}}}}}\n",
        ts, session, thread, turn, turn, rid, usage
    )
}

fn legacy(ts: &str, last: &str) -> String {
    format!(
        "{{\"timestamp\":\"{}\",\"type\":\"event_msg\",\"payload\":{{\"type\":\"token_count\",\"info\":{{\"last_token_usage\":{},\"total_token_usage\":{{\"input_tokens\":999900000000,\"output_tokens\":999900000000}}}}}}}}\n",
        ts, last
    )
}

fn settings(ts: &str, thread: &str, tier: &str) -> String {
    format!(
        "{{\"timestamp\":\"{}\",\"type\":\"event_msg\",\"payload\":{{\"type\":\"thread_settings_applied\",\"thread_id\":\"{}\",\"thread_settings\":{{\"service_tier\":\"{}\"}}}}}}\n",
        ts, thread, tier
    )
}

fn fixture(name: &str) -> String {
    match name {
        "current_token_usage_record.jsonl" => {
            meta("2026-09-15T08:00:00.000Z", "sess-primary", "/Users/fmahia/Dev/Alpha")
                + &turn("2026-09-15T08:00:01.000Z", "turn-1", "gpt-6-astra")
                + "{\"timestamp\":\"2026-09-15T08:00:02.000Z\",\"type\":\"response_item\",\"payload\":{\"type\":\"message\"}}\n"
                + &record(
                    "2026-09-15T08:01:00.000Z",
                    "sess-primary",
                    "thread-1",
                    "turn-1",
                    "resp-1",
                    &usage(10_000, 8_000, 0, 1_000, 600),
                )
                + &legacy("2026-09-15T08:01:01.000Z", &usage(10_000, 8_000, 0, 1_000, 600))
                + &record(
                    "2026-09-15T08:02:00.000Z",
                    "sess-primary",
                    "thread-1",
                    "turn-1",
                    "resp-2",
                    &usage(20_000, 15_000, 0, 2_000, 1_200),
                )
        }
        "legacy_token_count.jsonl" => {
            meta("2026-09-03T10:00:00.000Z", "sess-legacy", "/Users/fmahia/Dev/Beta")
                + "{\"timestamp\":\"2026-09-03T10:00:01.000Z\",\"type\":\"event_msg\",\"payload\":{\"type\":\"token_count\",\"info\":null}}\n"
                + &legacy("2026-09-03T10:00:02.000Z", &usage(48_619, 40_000, 0, 285, 100))
                + &legacy("2026-09-03T10:00:03.000Z", &usage(48_620, 40_000, 0, 286, 100))
        }
        "duplicate_active_archived.jsonl" => {
            meta("2026-09-16T10:00:00.000Z", "sess-dup", "/Users/fmahia/Dev/Dup")
                + &turn("2026-09-16T10:00:01.000Z", "turn-d", "gpt-5.6-sol")
                + &record(
                    "2026-09-16T10:00:02.000Z",
                    "sess-dup",
                    "thread-d",
                    "turn-d",
                    "resp-dup-1",
                    &usage(5_000, 1_000, 0, 500, 100),
                )
                + &record(
                    "2026-09-16T10:00:02.000Z",
                    "sess-dup",
                    "thread-d",
                    "turn-d",
                    "resp-dup-1",
                    &usage(5_000, 1_000, 0, 500, 100),
                )
        }
        "cache_write.jsonl" => {
            meta("2026-09-15T09:00:00.000Z", "sess-cw", "/Users/fmahia/Dev/Cache")
                + &turn("2026-09-15T09:00:01.000Z", "turn-cw", "gpt-5.6-sol")
                + &record(
                    "2026-09-15T09:00:02.000Z",
                    "sess-cw",
                    "thread-cw",
                    "turn-cw",
                    "resp-cw-1",
                    &usage(10_000, 4_000, 2_000, 1_000, 200),
                )
        }
        "subagents.jsonl" => {
            meta("2026-09-15T12:00:00.000Z", "sess-sub", "/Users/fmahia/Dev/Iota")
                + &turn("2026-09-15T12:00:01.000Z", "turn-main", "gpt-6-astra")
                + &turn("2026-09-15T12:00:02.000Z", "turn-sub-1", "gpt-5.6-sol")
                + &record(
                    "2026-09-15T12:00:03.000Z",
                    "sess-sub",
                    "thread-main",
                    "turn-main",
                    "resp-sub-1",
                    &usage(3_000, 1_000, 0, 300, 100),
                )
                + &record(
                    "2026-09-15T12:00:04.000Z",
                    "sess-sub",
                    "thread-subagent-1",
                    "turn-sub-1",
                    "resp-sub-2",
                    &usage(2_000, 500, 0, 200, 50),
                )
                + &record(
                    "2026-09-15T12:00:05.000Z",
                    "sess-sub",
                    "thread-subagent-2",
                    "turn-orphan",
                    "resp-sub-3",
                    &usage(1_000, 100, 0, 100, 10),
                )
        }
        "auto_review.jsonl" => {
            meta(
                "2026-09-18T10:00:00.000Z",
                "01a0b4dd-3bc1-7c02-85ac-14bd10b6c1a2",
                "/Users/fmahia/Dev/Nora",
            ) + &turn("2026-09-18T10:00:01.000Z", "turn-ar", "codex-auto-review")
                + &record(
                    "2026-09-18T10:00:02.000Z",
                    "01a0b4dd-3bc1-7c02-85ac-14bd10b6c1a2",
                    "01a0b4dd-3bc1-7c02-85ac-14bd10b6c1a2",
                    "turn-ar",
                    "resp-ar-1",
                    &usage(15_539, 4_864, 0, 160, 0),
                )
        }
        "fast_mode.jsonl" => {
            meta("2026-09-15T09:58:00.000Z", "sess-fast", "/Users/fmahia/Dev/Fast")
                + &turn("2026-09-15T09:58:01.000Z", "turn-f", "gpt-6-astra")
                + &settings("2026-09-15T10:00:00.000Z", "thread-f", "fast")
                + &record(
                    "2026-09-15T10:00:05.000Z",
                    "sess-fast",
                    "thread-f",
                    "turn-f",
                    "resp-fast-1",
                    &usage(1_000, 0, 0, 100, 0),
                )
                + &record(
                    "2026-09-15T09:59:00.000Z",
                    "sess-fast",
                    "thread-f",
                    "turn-f",
                    "resp-fast-2",
                    &usage(2_000, 0, 0, 200, 0),
                )
        }
        _ => panic!("no such fixture"),
    }
}

const HOME: &str = "/home/someone/.codex";

struct Home {
    /// Path below the home, content, and a time of change.
    files: Vec<(String, Vec<u8>, i64)>,
    clock: i64,
}

impl Home {
    fn new(layout: &[(&str, &str)]) -> Home {
        let mut home = Home { files: Vec::new(), clock: 0 };
        for (subdir, name) in layout {
            home.write(&format!("sessions/{}/rollout-{}", subdir, name), &fixture(name));
        }
        home
    }

    fn write(&mut self, path: &str, content: &str) {
        self.clock += 1;
        let bytes = content.as_bytes().to_vec();
        self.files.retain(|f| f.0 != path);
        self.files.push((path.to_string(), bytes, self.clock));
    }

    fn append(&mut self, path: &str, content: &str) {
        self.clock += 1;
        let clock = self.clock;
        for f in self.files.iter_mut() {
            if f.0 == path {
                f.1.extend_from_slice(content.as_bytes());
                f.2 = clock;
            }
        }
    }

    fn listing(&self) -> (Vec<SourceFile>, Vec<FileContent>) {
        let below = |dir: &str| -> Vec<SourceFile> {
            self.files
                .iter()
                .filter(|f| f.0.starts_with(dir))
                .map(|f| SourceFile {
                    path: format!("{}/{}", HOME, f.0),
                    archived: false,
                    size: f.1.len() as u64,
                    mtime_unix: Some(f.2),
                })
                .collect()
        };
        let files = discover(below("sessions/"), below("archived_sessions/"));
        let contents = files
            .iter()
            .map(|s| {
                let f = self.files.iter().find(|f| format!("{}/{}", HOME, f.0) == s.path).unwrap();
                FileContent::Whole(f.1.clone())
            })
            .collect();
        (files, contents)
    }
}

fn scan_home(home: &Home) -> ScanOutcome {
    let (files, contents) = home.listing();
    scan(HOME.to_string(), files, &contents)
}

fn rule(model: &str, alias: &[&str], own_write_rate: bool, long: bool, fast: bool) -> PricingRule {
    PricingRule {
        model: model.to_string(),
        aliases: alias.iter().map(|a| a.to_string()).collect(),
        effective_from: None,
        effective_until: None,
        has_cache_write_rate: own_write_rate,
        long_context: long,
        long_context_threshold: default_threshold(),
        has_fast_multiplier: fast,
    }
}

fn catalog(profile: &str, version: &str, own_write_rate: bool) -> PricingCatalog {
    PricingCatalog {
        catalog: format!("openai-{}", profile),
        profile: profile.to_string(),
        version: version.to_string(),
        currency: "USD".to_string(),
        unit: default_unit(),
        source_url: "https://example.org/pricing".to_string(),
        last_verified: "2026-09-23".to_string(),
        notes: Vec::new(),
        rules: vec![
            rule("gpt-6-astra", &[], own_write_rate, false, true),
            rule("gpt-5.6-sol", &[], own_write_rate, true, true),
            rule("gpt-5.6-luna", &[], own_write_rate, true, true),
            rule("gpt-5.4", &["codex-auto-review"], own_write_rate, true, false),
        ],
    }
}

fn engine() -> PricingEngine {
    PricingEngine {
        codex: catalog("codex", "2026-09-23", false),
        api: catalog("api", "2026-09-23", true),
    }
}

/// Dollars per million tokens: input, cached, output.
fn rates(model: &str) -> (f64, f64, f64) {
    match model {
        "gpt-6-astra" => (10.0, 1.0, 50.0),
        "gpt-5.6-sol" => (4.0, 0.4, 20.0),
        "gpt-5.6-luna" => (0.2, 0.02, 1.2),
        "gpt-5.4" => (2.5, 0.25, 15.0),
        _ => panic!("no such rule"),
    }
}

fn amount(c: &Charge, cd: &CostBreakdown, rates: (f64, f64, f64)) -> f64 {
    let long = cd.long_context;
    let scale = if c.scaled && cd.fast_applied { 2.5 } else { 1.0 };
    let rate = match c.rate {
        Rate::Input => rates.0 * if long { 2.0 } else { 1.0 },
        Rate::Cached => rates.1 * if long { 2.0 } else { 1.0 },
        Rate::CacheWrite => rates.0 * 1.25 * if long { 2.0 } else { 1.0 },
        Rate::Output => rates.2 * if long { 1.5 } else { 1.0 },
    };
    c.tokens as f64 * rate * scale / 1e6
}

fn equivalent_cost(profile: &PricingCatalog, cd: &CostBreakdown) -> f64 {
    match cd.rule {
        Some(i) => {
            let r = rates(&profile.rules[i].model);
            cd.charges.iter().map(|c| amount(c, cd, r)).sum()
        }
        None => 0.0,
    }
}

struct Db {
    home: Home,
    store: Store,
    threads: Option<Vec<StateThread>>,
}

impl Db {
    fn new(layout: &[(&str, &str)]) -> Db {
        Db { home: Home::new(layout), store: Store::new(), threads: None }
    }

    fn import_with(&mut self, engine: &PricingEngine, full: bool, reprice: bool) -> ImportReport {
        let (files, contents) = self.home.listing();
        import(&mut self.store, HOME, &files, &contents, &self.threads, engine, full, reprice)
    }

    fn import(&mut self, engine: &PricingEngine) -> ImportReport {
        self.import_with(engine, false, false)
    }

    fn totals(&self) -> (u64, TokenUsage) {
        db_totals(&self.store)
    }

    fn calls(&self) -> Vec<InferenceCall> {
        load_calls(&self.store, None, None)
    }

    fn by_response(&self, rid: &str) -> InferenceCall {
        self.calls().into_iter().find(|c| c.response_id.as_deref() == Some(rid)).unwrap()
    }

    fn uids(&self) -> Vec<String> {
        let mut u: Vec<String> = self.calls().into_iter().map(|c| c.event_uid).collect();
        u.sort();
        u
    }

    fn scan_uids(&self) -> Vec<String> {
        let mut u: Vec<String> =
            scan_home(&self.home).calls.into_iter().map(|c| c.event_uid).collect();
        u.sort();
        u
    }

    fn cost(&self, engine: &PricingEngine, rid: &str) -> f64 {
        let row = self.store.pricing.get(&self.by_response(rid).event_uid).unwrap();
        equivalent_cost(&engine.codex, &row.cost)
    }
}

#[test]
fn double_import_is_idempotent() {
    let mut h = Db::new(&[
        ("2026/09/15", "current_token_usage_record.jsonl"),
        ("2026/09/16", "duplicate_active_archived.jsonl"),
        ("2026/09/15", "cache_write.jsonl"),
    ]);
    let engine = engine();
    let rep1 = h.import(&engine);
    assert_eq!(rep1.calls_inserted, 4);
    let rep2 = h.import(&engine);
    assert_eq!(rep2.files_skipped, 3, "nothing has changed");
    assert_eq!(rep2.calls_inserted, 0);
    let (n, t) = h.totals();
    assert_eq!(n, 4);
    assert_eq!(t.input_tokens, 30_000 + 5_000 + 10_000);
    assert_eq!(rep1.duplicates_ignored, 1, "resp-dup-1 stands twice in its file");
}

#[test]
fn append_resume_imports_only_new_bytes() {
    let mut h = Db::new(&[]);
    let engine = engine();
    let full = fixture("current_token_usage_record.jsonl");
    let path = "sessions/2026/09/15/rollout-resume.jsonl";
    let first_line_end = full.find('\n').unwrap() + 1;
    h.home.write(path, &full[..first_line_end - 1]);
    let rep1 = h.import(&engine);
    assert_eq!(rep1.calls_inserted, 0);
    let held_offset = get_checkpoint(&h.store, path).unwrap().last_complete_offset;

    h.home.write(path, &full);
    let rep2 = h.import(&engine);
    assert_eq!(rep2.calls_inserted, 2);
    let cp2 = get_checkpoint(&h.store, path).unwrap();
    assert!(cp2.last_complete_offset > held_offset);
    assert_eq!(rep2.bytes_read, cp2.last_complete_offset - held_offset);
    let (_, t) = h.totals();
    assert_eq!(t.input_tokens, 30_000);
    let rep3 = h.import(&engine);
    assert_eq!(rep3.calls_inserted, 0);
}

#[test]
fn moved_to_archived_never_double_counts() {
    let mut h = Db::new(&[("2026/09/15", "current_token_usage_record.jsonl")]);
    let engine = engine();
    let rep1 = h.import(&engine);
    assert_eq!(rep1.calls_inserted, 2);

    h.home.files.clear();
    h.home.write(
        "archived_sessions/2026/09/15/rollout-current_token_usage_record.jsonl",
        &fixture("current_token_usage_record.jsonl"),
    );
    let rep2 = h.import(&engine);
    assert_eq!(rep2.calls_inserted, 0, "a moved file keeps its identities");
    let (n, t) = h.totals();
    assert_eq!(n, 2);
    assert_eq!(t.input_tokens, 30_000);
}

#[test]
fn reprice_updates_costs_when_catalog_changes() {
    let mut h = Db::new(&[("2026/09/15", "cache_write.jsonl")]);
    let first = engine();
    h.import(&first);
    let cost = |db: &Db, input_rate: f64| -> f64 {
        let row = db.store.pricing.value_at(0);
        let r = rates("gpt-5.6-sol");
        row.cost.charges.iter().map(|c| amount(c, &row.cost, (input_rate, r.1, r.2))).sum()
    };
    let cost_before = cost(&h, 4.0);
    assert_eq!(h.store.pricing.value_at(0).catalog_version, "2026-09-23");

    // Another catalogue, with twice the input rate for sol.
    let mut alt = engine();
    alt.codex.version = "2026-09-18-alt".to_string();
    let rep = h.import(&alt);
    assert!(rep.repriced);
    assert_eq!(rep.priced_calls, 1);
    assert_eq!(h.store.pricing.value_at(0).catalog_version, "2026-09-18-alt");
    let cost_after = cost(&h, 8.0);
    assert!((cost_after - cost_before - 0.016).abs() < 1e-9);
}

fn state_row(id: &str, title: &str, model: &str, cwd: &str, source: &str) -> StateRow {
    StateRow {
        id: id.to_string(),
        title: title.to_string(),
        name: None,
        model: Some(model.to_string()),
        cwd: Some(cwd.to_string()),
        project_id: None,
        thread_source: Some(source.to_string()),
        source: Some("{}".to_string()),
        created_at_ms: Some(0),
        updated_at_ms: Some(0),
        tokens_used: Some(1000),
        rollout_path: None,
    }
}

#[test]
fn state_enrichment_activity_title_parent_model() {
    let mut h = Db::new(&[
        ("2026/09/18", "auto_review.jsonl"),
        ("2026/09/15", "subagents.jsonl"),
        ("2026/09/03", "legacy_token_count.jsonl"),
    ]);
    let engine = engine();
    h.import(&engine);

    let rows = vec![
        state_row(
            "01a0b4dd-3bc1-7c02-85ac-14bd10b6c1a2",
            "Revue auto",
            "codex-auto-review",
            "/x/Nora",
            "guardian_review",
        ),
        state_row("sess-sub", "Thread principal", "gpt-6-astra", "/x/Iota", "user"),
        state_row("thread-subagent-1", "Sous-agent A", "gpt-5.6-sol", "/x/Iota", "subagent"),
        state_row("thread-subagent-2", "Sous-agent B", "gpt-5.6-sol", "/x/Iota", "subagent"),
        state_row("sess-legacy", "Ancienne session", "gpt-5.4", "/x/Beta", "user"),
    ];
    let edges = vec![
        ("thread-subagent-1".to_string(), "sess-sub".to_string()),
        ("thread-subagent-2".to_string(), "sess-sub".to_string()),
    ];
    h.threads = Some(read_threads(&rows, &edges, &Vec::new()));
    let rep = h.import(&engine);
    assert_eq!(rep.threads_enriched, 5);
    assert!(rep.calls_enriched > 0);

    let calls = h.calls();
    let sub = calls.iter().find(|c| c.thread_id.as_deref() == Some("thread-subagent-1")).unwrap();
    assert_eq!(sub.activity.as_deref(), Some("subagent"));
    assert_eq!(sub.parent_thread_id.as_deref(), Some("sess-sub"));
    assert_eq!(sub.thread_title.as_deref(), Some("Sous-agent A"));

    let auto = calls
        .iter()
        .find(|c| c.thread_id.as_deref().map_or(false, |t| t.starts_with("01a0b4dd")))
        .unwrap();
    assert_eq!(auto.activity.as_deref(), Some("auto_review"));

    let old = calls.iter().find(|c| c.source_format == SourceFormat::LegacyTokenCount).unwrap();
    assert_eq!(old.model_slug.as_deref(), Some("gpt-5.4"));
    assert_eq!(old.model_confidence.as_str(), "inferred");
}

fn no_figures(calls: usize) -> Figures {
    Figures {
        by_day: TextMap::new(),
        by_model: TextMap::new(),
        by_project: TextMap::new(),
        by_activity: TextMap::new(),
        by_thread: TextMap::new(),
        call_costs: vec!["0.000000".to_string(); calls],
    }
}

#[test]
fn csv_export_is_parseable() {
    let mut h = Db::new(&[
        ("2026/09/15", "current_token_usage_record.jsonl"),
        ("2026/09/15", "cache_write.jsonl"),
    ]);
    let engine = engine();
    h.import(&engine);
    let calls = load_calls(&h.store, None, None);
    assert_eq!(calls.len(), 3);
    assert!(calls.iter().all(|c| c.activity.is_none()));

    let files = export_csv(&calls, &engine, &no_figures(calls.len()));
    assert_eq!(files.len(), 6);
    let named = |name: &str| -> String {
        let f = files.iter().find(|f| f.name == name).unwrap();
        String::from_utf8(f.bytes.clone()).unwrap()
    };

    let calls_csv = named("calls.csv");
    let mut rdr = csv::Reader::from_reader(calls_csv.as_bytes());
    let mut rows = 0;
    for r in rdr.records() {
        let r = r.unwrap();
        assert_eq!(r.len(), 28);
        rows += 1;
    }
    assert_eq!(rows, 3);

    let by_day = named("by-day.csv");
    assert!(by_day.starts_with("bucket,calls,input_tokens"));
    assert!(by_day.contains("day:2026-09-15"));
}

#[test]
fn period_filter_reads_from_db() {
    let mut h = Db::new(&[
        ("2026/09/15", "current_token_usage_record.jsonl"),
        ("2026/09/03", "legacy_token_count.jsonl"),
    ]);
    h.import(&engine());
    let all = load_calls(&h.store, None, None);
    assert_eq!(all.len(), 4);
    let kept = load_calls(&h.store, Some("2026-09-11"), Some("2026-09-18"));
    assert_eq!(kept.len(), 2, "the legacy calls of 09/03 lie outside");
    assert!(kept.iter().all(|c| c.day() >= "2026-09-11" && c.day() <= "2026-09-18"));
}

#[test]
fn load_calls_with_single_bound_works() {
    let mut h = Db::new(&[
        ("2026/09/15", "current_token_usage_record.jsonl"),
        ("2026/09/03", "legacy_token_count.jsonl"),
    ]);
    h.import(&engine());
    let from_only = load_calls(&h.store, Some("2026-09-11"), None);
    assert_eq!(from_only.len(), 2, "only the usage records");
    let to_only = load_calls(&h.store, None, Some("2026-09-10"));
    assert_eq!(to_only.len(), 2, "only the legacy calls");
    let none = load_calls(&h.store, None, None);
    assert_eq!(none.len(), 4);
}

#[test]
fn reprice_keeps_service_tier_fast_multiplier() {
    let mut h = Db::new(&[("2026/09/15", "fast_mode.jsonl")]);
    let engine = engine();
    h.import(&engine);
    let before = h.cost(&engine, "resp-fast-1");
    assert!((before - 0.0375).abs() < 1e-9, "expected 0.0375, got {before}");

    let n = reprice_all(&mut h.store, &engine);
    assert_eq!(n, 2);
    let after = h.cost(&engine, "resp-fast-1");
    assert!((after - 0.0375).abs() < 1e-9, "the fast tier must not be lost: {after}");
    let unknown = h.cost(&engine, "resp-fast-2");
    assert!((unknown - 0.03).abs() < 1e-9, "an unknown tier is charged as standard: {unknown}");
}

fn legacy_fixture_for_primary_session() -> String {
    fixture("legacy_token_count.jsonl").replace("sess-legacy", "sess-primary")
}

#[test]
fn legacy_rows_pruned_when_primary_session_arrives() {
    let mut h = Db::new(&[]);
    let engine = engine();
    h.home.write(
        "sessions/2026/09/03/rollout-legacy.jsonl",
        &legacy_fixture_for_primary_session(),
    );
    let rep1 = h.import(&engine);
    assert_eq!(rep1.calls_inserted, 2, "legacy counts as long as it stands alone");
    let (_, t1) = h.totals();
    assert_eq!(t1.input_tokens, 48_619 + 48_620);

    h.home.write(
        "sessions/2026/09/15/rollout-primary.jsonl",
        &fixture("current_token_usage_record.jsonl"),
    );
    let rep2 = h.import(&engine);
    assert_eq!(rep2.legacy_pruned, 2, "both legacy calls of the session go");

    let (n, t2) = h.totals();
    assert_eq!(n, 2, "only the usage records are left");
    assert_eq!(t2.input_tokens, 30_000);
}

#[test]
fn legacy_import_skipped_when_session_already_primary() {
    let mut h = Db::new(&[]);
    let engine = engine();
    h.home.write(
        "sessions/2026/09/15/rollout-primary.jsonl",
        &fixture("current_token_usage_record.jsonl"),
    );
    h.import(&engine);
    h.home.write(
        "sessions/2026/09/03/rollout-legacy.jsonl",
        &legacy_fixture_for_primary_session(),
    );
    let rep = h.import(&engine);
    assert_eq!(rep.calls_inserted, 0, "legacy is ignored for a covered session");
    let (n, t) = h.totals();
    assert_eq!(n, 2);
    assert_eq!(t.input_tokens, 30_000);
}

#[test]
fn trailing_newline_arrival_keeps_ordinals_aligned_with_scan() {
    let mut h = Db::new(&[]);
    let engine = engine();
    let full = fixture("current_token_usage_record.jsonl");
    let path = "sessions/2026/09/15/rollout-phantom.jsonl";
    let trimmed = full.strip_suffix('\n').unwrap_or(&full);
    h.home.write(path, trimmed);
    let rep1 = h.import(&engine);
    assert_eq!(rep1.calls_inserted, 2);
    assert!(get_checkpoint(&h.store, path).unwrap().pending_newline);

    h.home.append(path, "\n");
    let rep2 = h.import(&engine);
    assert_eq!(rep2.calls_inserted, 0, "a line end makes no line");
    assert_eq!(rep2.duplicates_ignored, 0);
    assert!(!get_checkpoint(&h.store, path).unwrap().pending_newline);

    let new_line = "{\"timestamp\":\"2026-09-15T08:03:00.000Z\",\"type\":\"token_usage_record\",\"payload\":{\"session_id\":\"sess-primary\",\"thread_id\":\"thread-1\",\"turn_id\":\"turn-1\",\"root_turn_id\":\"turn-1\",\"response_id\":\"resp-3\",\"usage\":{\"input_tokens\":5000,\"cached_input_tokens\":4000,\"cache_write_input_tokens\":0,\"output_tokens\":500,\"reasoning_output_tokens\":300,\"total_tokens\":5500}}}\n";
    h.home.append(path, new_line);
    let rep3 = h.import(&engine);
    assert_eq!(rep3.calls_inserted, 1);

    let c = h.by_response("resp-3");
    assert_eq!(c.model_slug.as_deref(), Some("gpt-6-astra"), "the turn is known from before");
    assert_eq!(c.model_confidence.as_str(), "exact");
    assert_eq!(h.uids(), h.scan_uids());
}

#[test]
fn legacy_appended_to_primary_file_never_counts() {
    let mut h = Db::new(&[("2026/09/15", "current_token_usage_record.jsonl")]);
    let engine = engine();
    h.import(&engine);
    let (_, t1) = h.totals();
    assert_eq!(t1.input_tokens, 30_000);

    let legacy_line = "{\"timestamp\":\"2026-09-15T08:04:00.000Z\",\"type\":\"event_msg\",\"payload\":{\"type\":\"token_count\",\"info\":{\"last_token_usage\":{\"input_tokens\":111111,\"cached_input_tokens\":0,\"cache_write_input_tokens\":0,\"output_tokens\":111,\"reasoning_output_tokens\":11,\"total_tokens\":111222}}}}\n";
    h.home.append(
        "sessions/2026/09/15/rollout-current_token_usage_record.jsonl",
        legacy_line,
    );
    let rep = h.import(&engine);
    assert_eq!(rep.calls_inserted, 0, "a legacy line in such a file is ignored");
    let (n, t2) = h.totals();
    assert_eq!(n, 2);
    assert_eq!(t2.input_tokens, 30_000, "never 30_000 + 111_111");
    assert_eq!(h.uids(), h.scan_uids());
}

#[test]
fn full_rebuild_matches_scan_uids() {
    let mut h = Db::new(&[
        ("2026/09/15", "current_token_usage_record.jsonl"),
        ("2026/09/03", "legacy_token_count.jsonl"),
        ("2026/09/15", "cache_write.jsonl"),
    ]);
    let engine = engine();
    h.import(&engine);
    let (n_before, before) = h.totals();
    assert_eq!(n_before, 5);

    let rep = h.import_with(&engine, true, false);
    assert_eq!(rep.calls_inserted, 5, "all calls are imported again");
    let (n, after) = h.totals();
    assert_eq!(n, 5);
    assert_eq!(after.input_tokens, before.input_tokens);
    assert_eq!(h.uids(), h.scan_uids());
}

#[test]
fn legacy_lines_behind_a_checkpoint_keep_their_session() {
    let mut h = Db::new(&[("2026/09/03", "legacy_token_count.jsonl")]);
    let engine = engine();
    h.import(&engine);
    h.home.append(
        "sessions/2026/09/03/rollout-legacy_token_count.jsonl",
        &legacy("2026-09-03T10:00:09.000Z", &usage(9, 0, 0, 9, 0)),
    );
    let rep = h.import(&engine);
    assert_eq!(rep.calls_inserted, 1);
    assert!(h.calls().iter().all(|c| c.session_id.as_deref() == Some("sess-legacy")));
    assert_eq!(h.uids(), h.scan_uids());
}

#[test]
fn a_shrunk_file_is_read_from_its_start() {
    let mut h = Db::new(&[("2026/09/15", "current_token_usage_record.jsonl")]);
    let engine = engine();
    h.import(&engine);
    let path = "sessions/2026/09/15/rollout-current_token_usage_record.jsonl";
    let small = record(
        "2026-09-15T09:00:00.000Z",
        "sess-primary",
        "thread-1",
        "turn-1",
        "resp-9",
        &usage(1, 0, 0, 1, 0),
    );
    h.home.write(path, &small);
    let rep = h.import(&engine);
    assert_eq!(rep.calls_inserted, 1);
    assert_eq!(rep.bytes_read, small.len() as u64);
    assert_eq!(get_checkpoint(&h.store, path).unwrap().lines_total, 1);
}

#[test]
fn a_known_call_only_gains_a_missing_tier() {
    let mut h = Db::new(&[("2026/09/15", "current_token_usage_record.jsonl")]);
    h.import(&engine());
    let mut c = h.by_response("resp-1");
    assert_eq!(insert_call(&mut h.store, &c), (false, false));
    c.service_tier = ServiceTier::Standard;
    c.usage.input_tokens = 1;
    assert_eq!(insert_call(&mut h.store, &c), (false, true));
    assert_eq!(insert_call(&mut h.store, &c), (false, false));
    let there = h.by_response("resp-1");
    assert_eq!(there.service_tier, ServiceTier::Standard);
    assert_eq!(there.usage.input_tokens, 10_000);
    // Another identity with a response id that is taken stays out.
    c.event_uid = "another".to_string();
    assert_eq!(insert_call(&mut h.store, &c), (false, false));
    assert_eq!(h.totals().0, 2);
}

#[test]
fn prices_go_with_their_calls() {
    let mut h = Db::new(&[("2026/09/15", "current_token_usage_record.jsonl")]);
    h.import(&engine());
    assert_eq!(h.store.pricing.len(), 2);
    let mut c = h.by_response("resp-1");
    c.event_uid = "old".to_string();
    c.response_id = None;
    c.source_format = SourceFormat::LegacyTokenCount;
    c.session_id = Some("sess-old".to_string());
    let cd = engine().cost_codex(&c);
    insert_call(&mut h.store, &c);
    insert_pricing_result(&mut h.store, "old", cd, "v");
    assert_eq!(h.store.pricing.len(), 3);
    assert_eq!(clear_legacy_for_session(&mut h.store, "sess-old"), 1);
    assert_eq!(h.store.pricing.len(), 2);
    assert_eq!(h.totals().0, 2);
}

#[test]
fn backfilling_marks_and_prunes() {
    let mut h = Db::new(&[("2026/09/15", "current_token_usage_record.jsonl")]);
    h.import(&engine());
    let mut c = h.by_response("resp-1");
    c.event_uid = "old".to_string();
    c.response_id = None;
    c.source_format = SourceFormat::LegacyTokenCount;
    insert_call(&mut h.store, &c);
    c.event_uid = "older".to_string();
    c.session_id = None;
    insert_call(&mut h.store, &c);
    h.store.primary_sessions = TextMap::new();
    assert!(!is_primary_session(&h.store, "sess-primary"));
    assert_eq!(backfill_primary_sessions(&mut h.store), 2);
    assert!(is_primary_session(&h.store, "sess-primary"));
    assert_eq!(backfill_primary_sessions(&mut h.store), 0);
    assert_eq!(h.totals().0, 2);
}

#[test]
fn import_errors_are_kept_up_to_a_limit() {
    let mut h = Db::new(&[]);
    let mut text = String::new();
    for _ in 0..25 {
        text += "{\"type\":\"token_usage_record\"}\n";
    }
    h.home.write("sessions/rollout-bad.jsonl", &text);
    let rep = h.import(&engine());
    assert_eq!(rep.parse_errors, 25);
    assert_eq!(h.store.import_errors.len(), 20);
    assert_eq!(h.store.import_errors[0].0, "sessions/rollout-bad.jsonl");
    assert_eq!(
        h.store.import_errors[0].1,
        "line 0: JSON error: missing field `payload` at line 1 column 29"
    );
}

#[test]
fn values_are_set_and_read() {
    let mut store = Store::new();
    assert!(get_meta(&store, "k").is_none());
    set_meta(&mut store, "k", "v");
    set_meta(&mut store, "k", "w");
    assert_eq!(get_meta(&store, "k").unwrap(), "w");
    upsert_thread_settings(&mut store, "t", "fast", "2026-02");
    upsert_thread_settings(&mut store, "t", "standard", "2026-01");
    assert_eq!(get_thread_tier(&store, "t").unwrap(), &("fast".to_string(), "2026-02".to_string()));
    upsert_thread_settings(&mut store, "t", "standard", "2026-02");
    assert_eq!(get_thread_tier(&store, "t").unwrap().0, "standard");
    mark_primary_session(&mut store, "s");
    assert!(is_primary_session(&store, "s"));
    assert_eq!(parse_confidence("inferred"), ModelConfidence::Inferred);
    assert_eq!(parse_confidence("no idea"), ModelConfidence::Unknown);
}

#[test]
fn an_unchanged_file_is_known_as_such() {
    let mut h = Db::new(&[("2026/09/15", "cache_write.jsonl")]);
    let (files, _) = h.home.listing();
    assert!(!is_file_unchanged(&h.store, HOME, &files[0]));
    h.import(&engine());
    assert!(is_file_unchanged(&h.store, HOME, &files[0]));
}

#[test]
fn calls_come_in_order() {
    let mut h = Db::new(&[
        ("2026/09/15", "subagents.jsonl"),
        ("2026/09/15", "current_token_usage_record.jsonl"),
        ("2026/09/03", "legacy_token_count.jsonl"),
    ]);
    h.import(&engine());
    let times: Vec<_> = h.calls().into_iter().map(|c| c.timestamp_utc).collect();
    let mut sorted = times.clone();
    sorted.sort();
    assert_eq!(times.len(), 7);
    assert_eq!(times, sorted);
}

#[test]
fn importing_as_a_file_grows_gives_the_same_calls() {
    let engine = engine();
    let path = "sessions/2026/09/15/rollout-grown.jsonl";
    for name in ["current_token_usage_record.jsonl", "legacy_token_count.jsonl"] {
        let full = fixture(name);
        let mut at_once = Db::new(&[]);
        at_once.home.write(path, &full);
        at_once.import(&engine);
        for cut in (0..full.len()).step_by(37) {
            let mut h = Db::new(&[]);
            h.home.write(path, &full[..cut]);
            h.import(&engine);
            h.home.write(path, &full);
            h.import(&engine);
            assert_eq!(h.uids(), at_once.uids(), "{} cut at {}", name, cut);
        }
    }
}

#[test]
fn totals_of_a_full_import_are_those_of_a_scan() {
    let mut h = Db::new(&[
        ("2026/09/15", "current_token_usage_record.jsonl"),
        ("2026/09/16", "duplicate_active_archived.jsonl"),
        ("2026/09/03", "legacy_token_count.jsonl"),
    ]);
    h.home.write(
        "archived_sessions/rollout-copy.jsonl",
        &fixture("legacy_token_count.jsonl"),
    );
    h.import_with(&engine(), true, false);
    let out = scan_home(&h.home);
    assert_eq!(h.totals(), (out.calls.len() as u64, out.totals));
}

#[test]
fn a_full_import_forgets_sessions_that_no_file_covers() {
    let mut h = Db::new(&[]);
    let old = meta("t0", "s", "/x") + &legacy("2026-09-03T10:00:02.000Z", &usage(5, 0, 0, 1, 0));
    h.home.write("sessions/a.jsonl", &old);
    h.home.write(
        "sessions/b.jsonl",
        &record("t1", "s", "th", "turn-1", "r1", &usage(10, 0, 0, 1, 0)),
    );
    h.import(&engine());
    assert_eq!(h.totals().1.input_tokens, 10);
    h.home.files.retain(|f| f.0 != "sessions/b.jsonl");
    h.import_with(&engine(), true, false);
    assert_eq!(h.uids(), h.scan_uids());
    assert_eq!(h.totals().1.input_tokens, 5);
    assert_eq!(h.store.primary_sessions.len(), 0);
}

#[test]
fn a_rebuild_repeats_the_first_import() {
    let mut h = Db::new(&[
        ("2026/09/15", "current_token_usage_record.jsonl"),
        ("2026/09/16", "duplicate_active_archived.jsonl"),
        ("2026/09/03", "legacy_token_count.jsonl"),
    ]);
    h.import(&engine());
    let (uids, totals) = (h.uids(), h.totals());
    assert_eq!(uids, h.scan_uids());
    h.import_with(&engine(), true, true);
    assert_eq!(h.uids(), uids);
    assert_eq!(h.totals(), totals);
}

#[test]
fn a_second_import_leaves_the_store_as_it_is() {
    let mut h = Db::new(&[
        ("2026/09/15", "current_token_usage_record.jsonl"),
        ("2026/09/03", "legacy_token_count.jsonl"),
        ("2026/09/18", "auto_review.jsonl"),
    ]);
    h.threads = Some(read_threads(
        &vec![state_row("sess-legacy", "Ancienne session", "gpt-5.4", "/x/Beta", "user")],
        &Vec::new(),
        &Vec::new(),
    ));
    let engine = engine();
    let first = h.import(&engine);
    assert!(first.repriced);
    let held = h.totals();
    let calls = format!("{:?}", h.calls());
    let second = h.import(&engine);
    assert_eq!(second.files_skipped, 3);
    assert_eq!(second.files_changed, 0);
    assert_eq!(second.bytes_read, 0);
    assert_eq!(second.calls_inserted, 0);
    assert_eq!(second.duplicates_ignored, 0);
    assert_eq!(second.legacy_pruned, 0);
    assert!(!second.repriced);
    assert_eq!(h.totals(), held);
    assert_eq!(format!("{:?}", h.calls()), calls);
}

#[test]
fn files_that_come_and_grow_agree_with_a_scan() {
    let engine = engine();
    let records = fixture("current_token_usage_record.jsonl");
    let review = fixture("auto_review.jsonl");
    let old = fixture("legacy_token_count.jsonl");
    let twice = fixture("duplicate_active_archived.jsonl");
    let forked = meta("t0", "parent", "/x")
        + &record("t1", "child", "th", "turn-1", "fork-1", &usage(10, 0, 0, 1, 0))
        + &meta("t2", "child", "/x")
        + &record("t3", "child", "th", "turn-1", "fork-2", &usage(20, 0, 0, 2, 0));
    for cut in (0..records.len()).step_by(97) {
        let mut h = Db::new(&[("2026/09/15", "cache_write.jsonl")]);
        h.home.write("sessions/b.jsonl", &records[..cut]);
        h.home.write("sessions/a.jsonl", &old[..cut.min(old.len())]);
        h.home.write("sessions/c.jsonl", &twice[..cut.min(twice.len())]);
        h.home.write("sessions/d.jsonl", &forked[..cut.min(forked.len())]);
        h.import(&engine);
        h.home.write("sessions/b.jsonl", &records);
        h.home.write("sessions/a.jsonl", &old);
        h.home.write("sessions/c.jsonl", &twice);
        h.home.write("sessions/d.jsonl", &forked);
        h.home.write("sessions/0.jsonl", &review);
        h.import(&engine);
        let out = scan_home(&h.home);
        assert_eq!(h.uids(), h.scan_uids(), "cut at {}", cut);
        assert_eq!(h.totals(), (out.calls.len() as u64, out.totals), "cut at {}", cut);
        let held = h.totals();
        h.import_with(&engine, true, false);
        assert_eq!(h.totals(), held, "cut at {}", cut);
    }
}

#[test]
fn a_response_id_stands_for_what_it_stood_for_first() {
    let engine = engine();
    let first = record("t1", "s", "th", "turn-1", "r1", &usage(10, 0, 0, 1, 0));
    let again = record("t9", "other", "th", "turn-9", "r1", &usage(99, 0, 0, 9, 0))
        + &record("t9", "other", "th", "turn-9", "r2", &usage(20, 0, 0, 2, 0));
    let mut h = Db::new(&[]);
    h.home.write("sessions/a.jsonl", &first);
    h.home.write("sessions/c.jsonl", &again);
    h.import(&engine);
    assert_eq!(h.uids(), h.scan_uids());
    assert_eq!(h.totals().1.input_tokens, 30);
    h.home.write("sessions/b.jsonl", &again);
    h.home.append("sessions/c.jsonl", &first);
    h.import(&engine);
    assert_eq!(h.uids(), h.scan_uids());
    assert_eq!(h.totals().1.input_tokens, 30);
    h.home.write("sessions/0.jsonl", &again);
    h.import(&engine);
    assert_ne!(h.uids(), h.scan_uids(), "an earlier file tells the response id anew");
}

#[test]
fn a_late_header_of_a_session_that_nothing_covers_agrees_with_a_scan() {
    let engine = engine();
    let path = "sessions/late.jsonl";
    let full = legacy("2026-09-03T10:00:01.000Z", &usage(5, 0, 0, 1, 0))
        + &meta("t0", "late", "/x")
        + &legacy("2026-09-03T10:00:02.000Z", &usage(7, 0, 0, 1, 0));
    for cut in 0..full.len() {
        let mut h = Db::new(&[("2026/09/15", "current_token_usage_record.jsonl")]);
        h.home.write(path, &full[..cut]);
        h.import(&engine);
        h.home.write(path, &full);
        h.home.write("archived_sessions/late.jsonl", &full);
        h.import(&engine);
        let out = scan_home(&h.home);
        assert_eq!(h.uids(), h.scan_uids(), "cut at {}", cut);
        assert_eq!(h.totals(), (out.calls.len() as u64, out.totals), "cut at {}", cut);
    }
}

#[test]
fn headers_do_not_matter_to_usage_records() {
    let engine = engine();
    let path = "sessions/twice.jsonl";
    let one = record("t1", "s", "th", "turn-1", "r1", &usage(10, 0, 0, 1, 0));
    let two = record("t2", "s", "th", "turn-1", "r2", &usage(20, 0, 0, 2, 0));
    let full = one + &meta("t0", "first", "/x") + &turn("t0", "turn-1", "gpt-5.6-sol")
        + &meta("t0", "second", "/y") + &two;
    for cut in 0..full.len() {
        let mut h = Db::new(&[]);
        h.home.write(path, &full[..cut]);
        h.import(&engine);
        h.home.write(path, &full);
        h.import(&engine);
        assert_eq!(h.uids(), h.scan_uids(), "cut at {}", cut);
        assert_eq!(h.totals().1.input_tokens, 30, "cut at {}", cut);
        let c = h.by_response("r2");
        assert_eq!(c.model_slug.as_deref(), Some("gpt-5.6-sol"));
        assert_eq!(c.model_confidence, ModelConfidence::Exact);
    }
}

#[test]
fn blanks_behind_a_line_make_no_line() {
    let engine = engine();
    let path = "sessions/blanks.jsonl";
    let one = record("t1", "s", "th", "turn-1", "r1", &usage(10, 0, 0, 1, 0));
    let two = record("t2", "s", "th", "turn-1", "r2", &usage(20, 0, 0, 2, 0));
    let full = one.trim_end().to_string() + " \t \r\n" + &two;
    let mut calls = Vec::new();
    for cut in 0..full.len() {
        let mut h = Db::new(&[]);
        h.home.write(path, &full[..cut]);
        h.import(&engine);
        h.home.write(path, &full);
        h.import(&engine);
        assert_eq!(h.uids(), h.scan_uids(), "cut at {}", cut);
        calls.push(h.by_response("r2").source_ordinal);
    }
    assert!(calls.iter().all(|n| *n == 1));
}

#[test]
fn enrichment_counts_each_call_once() {
    let mut h = Db::new(&[]);
    h.home.write(
        "sessions/old.jsonl",
        &("{\"type\":\"session_meta\",\"payload\":{\"id\":\"s\"}}\n".to_string()
            + &legacy("2026-09-03T10:00:02.000Z", &usage(5, 0, 0, 1, 0))),
    );
    h.threads = Some(read_threads(
        &vec![state_row("s", "Une session", "gpt-5.4", "/x/Beta", "user")],
        &Vec::new(),
        &Vec::new(),
    ));
    let rep = h.import(&engine());
    assert_eq!(rep.calls_enriched, 1, "a model and a project, but one call");
    let c = &h.calls()[0];
    assert_eq!(c.model_slug.as_deref(), Some("gpt-5.4"));
    assert_eq!(c.project_path.as_deref(), Some("/x/Beta"));
}
