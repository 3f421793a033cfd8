use codex_meter::discovery::SourceFile;
use codex_meter::discovery::discover;
use codex_meter::model::InferenceCall;
use codex_meter::model::ModelConfidence;
use codex_meter::model::SourceFormat;
use codex_meter::parser::FileContent;
use codex_meter::pricing::Charge;
use codex_meter::pricing::CostBreakdown;
use codex_meter::pricing::PricingCatalog;
use codex_meter::pricing::PricingEngine;
use codex_meter::pricing::PricingRule;
use codex_meter::pricing::Rate;
use codex_meter::pricing::default_threshold;
use codex_meter::pricing::default_unit;
use codex_meter::scan::ScanOutcome;
use codex_meter::scan::filter_period;
use codex_meter::scan::scan;

fn usage(input: u64, cached: u64, write: u64, output: u64, reasoning: u64) -> String {
    format!(
        "{{\"input_tokens\":{},\"cached_input_tokens\":{},\"cache_write_input_tokens\":{},\"output_tokens\":{},\"reasoning_output_tokens\":{},\"total_tokens\":{}}}",
        input, cached, write, output, reasoning, input + output
    )
}

fn meta(ts: &str, session: &str, cwd: &str) -> String {
    format!(
        "{{\"timestamp\":\"{}\",\"type\":\"session_meta\",\"payload\":{{\"id\":\"{}\",\"timestamp\":\"{}\",\"cwd\":\"{}\",\"originator\":\"Codex CLI\",\"cli_version\":\"0.156.0\"}}}}\n",
        ts, session, ts, cwd
    )
}

fn turn(ts: &str, turn: &str, model: &str) -> String {
    format!(
        "{{\"timestamp\":\"{}\",\"type\":\"turn_context\",\"payload\":{{\"turn_id\":\"{}\",\"model\":\"{}\",\"root_turn_id\":\"{}\"}}}}\n",
        ts, turn, model, turn
    )
}

fn record(ts: &str, session: &str, thread: &str, turn: &str, rid: &str, usage: &str) -> String {
    format!(
        "{{\"timestamp\":\"{}\",\"type\":\"token_usage_record\",\"payload\":{{\"session_id\":\"{}\",\"thread_id\":\"{}\",\"turn_id\":\"{}\",\"root_turn_id\":\"{}\",\"response_id\":\"{}\",\"usage\":{},\"turn_token_usage\":{{\"input_tokens\":444000000}},\"thread_token_usage\":{{\"input_tokens\":999000000000}}}}}}\n",
        ts, session, thread, turn, turn, rid, usage
    )
}

fn legacy(ts: &str, last: &str) -> String {
    format!(
        "{{\"timestamp\":\"{}\",\"type\":\"event_msg\",\"payload\":{{\"type\":\"token_count\",\"info\":{{\"last_token_usage\":{},\"total_token_usage\":{{\"input_tokens\":999900000000,\"output_tokens\":999900000000}}}}}}}}\n",
        ts, last
    )
}

fn fixture(name: &str) -> String {
    match name {
        "current_token_usage_record.jsonl" => {
            meta("2026-09-15T08:00:00.000Z", "sess-primary", "/Users/fmahia/Dev/Alpha")
                + &turn("2026-09-15T08:00:01.000Z", "turn-1", "gpt-6-astra")
                + "{\"timestamp\":\"2026-09-15T08:00:02.000Z\",\"type\":\"response_item\",\"payload\":{\"type\":\"message\"}}\n"
                + &record(
                    "2026-09-15T08:01:00.000Z",
                    "sess-primary",
                    "thread-1",
                    "turn-1",
                    "resp-1",
                    &usage(10_000, 8_000, 0, 1_000, 600),
                )
                + &legacy("2026-09-15T08:01:01.000Z", &usage(10_000, 8_000, 0, 1_000, 600))
                + &record(
                    "2026-09-15T08:02:00.000Z",
                    "sess-primary",
                    "thread-1",
                    "turn-1",
                    "resp-2",
                    &usage(20_000, 15_000, 0, 2_000, 1_200),
                )
        }
        "legacy_token_count.jsonl" => {
            meta("2026-09-03T10:00:00.000Z", "sess-legacy", "/Users/fmahia/Dev/Beta")
                + "{\"timestamp\":\"2026-09-03T10:00:01.000Z\",\"type\":\"event_msg\",\"payload\":{\"type\":\"token_count\",\"info\":null}}\n"
                + &legacy("2026-09-03T10:00:02.000Z", &usage(48_619, 40_000, 0, 285, 100))
                + &legacy("2026-09-03T10:00:03.000Z", &usage(48_620, 40_000, 0, 286, 100))
        }
        "duplicate_active_archived.jsonl" => {
            meta("2026-09-16T10:00:00.000Z", "sess-dup", "/Users/fmahia/Dev/Dup")
                + &turn("2026-09-16T10:00:01.000Z", "turn-d", "gpt-5.6-sol")
                + &record(
                    "2026-09-16T10:00:02.000Z",
                    "sess-dup",
                    "thread-d",
                    "turn-d",
                    "resp-dup-1",
                    &usage(5_000, 1_000, 0, 500, 100),
                )
                + &record(
                    "2026-09-16T10:00:02.000Z",
                    "sess-dup",
                    "thread-d",
                    "turn-d",
                    "resp-dup-1",
                    &usage(5_000, 1_000, 0, 500, 100),
                )
        }
        "cache_write.jsonl" => {
            meta("2026-09-15T09:00:00.000Z", "sess-cw", "/Users/fmahia/Dev/Cache")
                + &turn("2026-09-15T09:00:01.000Z", "turn-cw", "gpt-5.6-sol")
                + &record(
                    "2026-09-15T09:00:02.000Z",
                    "sess-cw",
                    "thread-cw",
                    "turn-cw",
                    "resp-cw-1",
                    &usage(10_000, 4_000, 2_000, 1_000, 200),
                )
        }
        "subagents.jsonl" => {
            meta("2026-09-15T12:00:00.000Z", "sess-sub", "/Users/fmahia/Dev/Iota")
                + &turn("2026-09-15T12:00:01.000Z", "turn-main", "gpt-6-astra")
                + &turn("2026-09-15T12:00:02.000Z", "turn-sub-1", "gpt-5.6-sol")
                + &record(
                    "2026-09-15T12:00:03.000Z",
                    "sess-sub",
                    "thread-main",
                    "turn-main",
                    "resp-sub-1",
                    &usage(3_000, 1_000, 0, 300, 100),
                )
                + &record(
                    "2026-09-15T12:00:04.000Z",
                    "sess-sub",
                    "thread-subagent-1",
                    "turn-sub-1",
                    "resp-sub-2",
                    &usage(2_000, 500, 0, 200, 50),
                )
                + &record(
                    "2026-09-15T12:00:05.000Z",
                    "sess-sub",
                    "thread-subagent-2",
                    "turn-orphan",
                    "resp-sub-3",
                    &usage(1_000, 100, 0, 100, 10),
                )
        }
        "partial_last_line.jsonl" => {
            meta("2026-09-17T10:00:00.000Z", "sess-part", "/Users/fmahia/Dev/Part")
                + &record(
                    "2026-09-17T10:00:01.000Z",
                    "sess-part",
                    "thread-p",
                    "turn-p",
                    "resp-p-1",
                    &usage(1_000, 0, 0, 100, 10),
                )
                + "{\"timestamp\":\"2026-09-17T10:00:02.000Z\",\"type\":\"token_usage_record\",\"payload\":{\"sess\n"
        }
        "malformed_record.jsonl" => {
            meta("2026-09-17T11:00:00.000Z", "sess-mal", "/Users/fmahia/Dev/Mal")
                + "{\"timestamp\":\"2026-09-17T11:00:01.000Z\",\"type\":\"token_usage_record\",\"payload\":{\"response_id\":\"resp-mal-1\",\"usage\":{\"input_tokens\":\"not-a-number\"}}}\n"
                + "{\"timestamp\":\"2026-09-17T11:00:02.000Z\",\"type\":\"a_new_kind\",\"payload\":{\"about\":\"token_count\"}}\n"
                + &record(
                    "2026-09-17T11:00:03.000Z",
                    "sess-mal",
                    "thread-mal",
                    "turn-mal",
                    "resp-mal-2",
                    &usage(3_000, 0, 0, 300, 30),
                )
        }
        "multiple_models.jsonl" => {
            meta("2026-09-15T13:00:00.000Z", "sess-multi", "/Users/fmahia/Dev/Multi")
                + &turn("2026-09-15T13:00:01.000Z", "turn-a", "gpt-6-astra")
                + &turn("2026-09-15T13:00:02.000Z", "turn-b", "gpt-5.6-sol")
                + &turn("2026-09-15T13:00:03.000Z", "turn-c", "gpt-5.6-luna")
                + &record(
                    "2026-09-15T13:00:04.000Z",
                    "sess-multi",
                    "thread-m",
                    "turn-a",
                    "resp-m-1",
                    &usage(100, 0, 0, 10, 0),
                )
                + &record(
                    "2026-09-15T13:00:05.000Z",
                    "sess-multi",
                    "thread-m",
                    "turn-b",
                    "resp-m-2",
                    &usage(200, 0, 0, 20, 0),
                )
                + &record(
                    "2026-09-15T13:00:06.000Z",
                    "sess-multi",
                    "thread-m",
                    "turn-c",
                    "resp-m-3",
                    &usage(300, 0, 0, 30, 0),
                )
        }
        "long_context.jsonl" => {
            meta("2026-09-15T14:00:00.000Z", "sess-long", "/Users/fmahia/Dev/Long")
                + &turn("2026-09-15T14:00:01.000Z", "turn-l", "gpt-5.6-sol")
                + &turn("2026-09-15T14:00:02.000Z", "turn-la", "gpt-6-astra")
                + &record(
                    "2026-09-15T14:00:03.000Z",
                    "sess-long",
                    "thread-l",
                    "turn-l",
                    "resp-l-1",
                    &usage(272_000, 260_000, 0, 1_000, 0),
                )
                + &record(
                    "2026-09-15T14:00:04.000Z",
                    "sess-long",
                    "thread-l",
                    "turn-l",
                    "resp-l-2",
                    &usage(272_001, 260_000, 0, 1_000, 0),
                )
                + &record(
                    "2026-09-15T14:00:05.000Z",
                    "sess-long",
                    "thread-l",
                    "turn-la",
                    "resp-l-3",
                    &usage(300_000, 260_000, 0, 1_000, 0),
                )
        }
        "auto_review.jsonl" => {
            meta(
                "2026-09-18T10:00:00.000Z",
                "01a0b4dd-3bc1-7c02-85ac-14bd10b6c1a2",
                "/Users/fmahia/Dev/Nora",
            ) + &turn("2026-09-18T10:00:01.000Z", "turn-ar", "codex-auto-review")
                + &record(
                    "2026-09-18T10:00:02.000Z",
                    "01a0b4dd-3bc1-7c02-85ac-14bd10b6c1a2",
                    "01a0b4dd-3bc1-7c02-85ac-14bd10b6c1a2",
                    "turn-ar",
                    "resp-ar-1",
                    &usage(15_539, 4_864, 0, 160, 0),
                )
        }
        "unknown_model.jsonl" => {
            meta("2026-09-15T15:00:00.000Z", "sess-new", "/Users/fmahia/Dev/New")
                + &record(
                    "2026-09-15T15:00:01.000Z",
                    "sess-new",
                    "thread-n",
                    "turn-n",
                    "resp-n-1",
                    &usage(7_000, 0, 0, 700, 0),
                )
                + &turn("2026-09-15T15:00:02.000Z", "turn-n", "brand-new-model-9x")
        }
        _ => panic!("no such fixture"),
    }
}

const HOME: &str = "/home/someone/.codex";

struct Home {
    /// Path below the home, content, and a time of change.
    files: Vec<(String, Vec<u8>, i64)>,
    clock: i64,
}

impl Home {
    fn new(layout: &[(&str, &str)]) -> Home {
        let mut home = Home { files: Vec::new(), clock: 0 };
        for (subdir, name) in layout {
            home.write(&format!("sessions/{}/rollout-{}", subdir, name), &fixture(name));
        }
        home
    }

    fn write(&mut self, path: &str, content: &str) {
        self.clock += 1;
        let bytes = content.as_bytes().to_vec();
        self.files.retain(|f| f.0 != path);
        self.files.push((path.to_string(), bytes, self.clock));
    }

    fn listing(&self) -> (Vec<SourceFile>, Vec<FileContent>) {
        let below = |dir: &str| -> Vec<SourceFile> {
            self.files
                .iter()
                .filter(|f| f.0.starts_with(dir))
                .map(|f| SourceFile {
                    path: format!("{}/{}", HOME, f.0),
                    archived: false,
                    size: f.1.len() as u64,
                    mtime_unix: Some(f.2),
                })
                .collect()
        };
        let files = discover(below("sessions/"), below("archived_sessions/"));
        let contents = files
            .iter()
            .map(|s| {
                let f = self.files.iter().find(|f| format!("{}/{}", HOME, f.0) == s.path).unwrap();
                FileContent::Whole(f.1.clone())
            })
            .collect();
        (files, contents)
    }
}

fn scan_home(home: &Home) -> ScanOutcome {
    let (files, contents) = home.listing();
    scan(HOME.to_string(), files, &contents)
}

fn rule(model: &str, alias: &[&str], own_write_rate: bool, long: bool, fast: bool) -> PricingRule {
    PricingRule {
        model: model.to_string(),
        aliases: alias.iter().map(|a| a.to_string()).collect(),
        effective_from: None,
        effective_until: None,
        has_cache_write_rate: own_write_rate,
        long_context: long,
        long_context_threshold: default_threshold(),
        has_fast_multiplier: fast,
    }
}

fn catalog(profile: &str, version: &str, own_write_rate: bool) -> PricingCatalog {
    PricingCatalog {
        catalog: format!("openai-{}", profile),
        profile: profile.to_string(),
        version: version.to_string(),
        currency: "USD".to_string(),
        unit: default_unit(),
        source_url: "https://example.org/pricing".to_string(),
        last_verified: "2026-09-23".to_string(),
        notes: Vec::new(),
        rules: vec![
            rule("gpt-6-astra", &[], own_write_rate, false, true),
            rule("gpt-5.6-sol", &[], own_write_rate, true, true),
            rule("gpt-5.6-luna", &[], own_write_rate, true, true),
            rule("gpt-5.4", &["codex-auto-review"], own_write_rate, true, false),
        ],
    }
}

fn engine() -> PricingEngine {
    PricingEngine {
        codex: catalog("codex", "2026-09-23", false),
        api: catalog("api", "2026-09-23", true),
    }
}

/// Dollars per million tokens: input, cached, output.
fn rates(model: &str) -> (f64, f64, f64) {
    match model {
        "gpt-6-astra" => (10.0, 1.0, 50.0),
        "gpt-5.6-sol" => (4.0, 0.4, 20.0),
        "gpt-5.6-luna" => (0.2, 0.02, 1.2),
        "gpt-5.4" => (2.5, 0.25, 15.0),
        _ => panic!("no such rule"),
    }
}

fn amount(c: &Charge, cd: &CostBreakdown, rates: (f64, f64, f64)) -> f64 {
    let long = cd.long_context;
    let scale = if c.scaled && cd.fast_applied { 2.5 } else { 1.0 };
    let rate = match c.rate {
        Rate::Input => rates.0 * if long { 2.0 } else { 1.0 },
        Rate::Cached => rates.1 * if long { 2.0 } else { 1.0 },
        Rate::CacheWrite => rates.0 * 1.25 * if long { 2.0 } else { 1.0 },
        Rate::Output => rates.2 * if long { 1.5 } else { 1.0 },
    };
    c.tokens as f64 * rate * scale / 1e6
}

fn equivalent_cost(profile: &PricingCatalog, cd: &CostBreakdown) -> f64 {
    match cd.rule {
        Some(i) => {
            let r = rates(&profile.rules[i].model);
            cd.charges.iter().map(|c| amount(c, cd, r)).sum()
        }
        None => 0.0,
    }
}

#[test]
fn primary_format_basic() {
    let home = Home::new(&[("2026/09/15", "current_token_usage_record.jsonl")]);
    let out = scan_home(&home);
    let d = &out.diagnostics;
    assert_eq!(d.usage_records, 2);
    assert_eq!(d.legacy_records, 0);
    assert_eq!(out.calls.len(), 2);
    // The running totals of the fixture are huge: were they counted, these would fail.
    assert_eq!(out.totals.input_tokens, 30_000);
    assert_eq!(out.totals.cached_input_tokens, 23_000);
    assert_eq!(out.totals.output_tokens, 3_000);
    assert_eq!(out.totals.reasoning_output_tokens, 1_800);
    assert_eq!(out.totals.total_tokens, 33_000);
    let c = &out.calls[0];
    assert_eq!(c.model_slug.as_deref(), Some("gpt-6-astra"));
    assert_eq!(c.model_confidence, ModelConfidence::Exact);
    assert_eq!(c.project_path.as_deref(), Some("/Users/fmahia/Dev/Alpha"));
    assert!(c.response_id.is_some());
}

#[test]
fn legacy_fallback_uses_last_not_total() {
    let home = Home::new(&[("2026/09/03", "legacy_token_count.jsonl")]);
    let out = scan_home(&home);
    let d = &out.diagnostics;
    assert_eq!(d.legacy_records, 2, "info null is told, not counted");
    assert_eq!(d.legacy_null_info, 1);
    assert_eq!(out.totals.input_tokens, 48_619 + 48_620);
    assert_eq!(out.totals.output_tokens, 285 + 286);
    assert!(out.totals.input_tokens < 100_000);
    for c in &out.calls {
        assert_eq!(c.source_format, SourceFormat::LegacyTokenCount);
    }
}

#[test]
fn never_mix_primary_and_legacy_in_same_file() {
    let home = Home::new(&[("2026/09/15", "current_token_usage_record.jsonl")]);
    let out = scan_home(&home);
    assert_eq!(out.calls.len(), 2);
    assert_eq!(out.totals.input_tokens, 30_000);
    assert!(out.calls.iter().all(|c| c.source_format == SourceFormat::TokenUsageRecord));
}

#[test]
fn duplicate_response_id_counts_once() {
    let home = Home::new(&[("2026/09/16", "duplicate_active_archived.jsonl")]);
    let out = scan_home(&home);
    assert_eq!(out.calls.len(), 1, "one response id is one call");
    assert_eq!(out.diagnostics.duplicates_ignored, 1);
    assert_eq!(out.totals.input_tokens, 5_000);
}

#[test]
fn archived_sessions_never_double_count() {
    let mut home = Home::new(&[
        ("2026/09/16", "duplicate_active_archived.jsonl"),
        ("2026/09/16", "duplicate_active_archived.jsonl"),
    ]);
    home.write(
        "archived_sessions/2026/09/16/rollout-duplicate_active_archived.jsonl",
        &fixture("duplicate_active_archived.jsonl"),
    );
    let out = scan_home(&home);
    assert_eq!(out.diagnostics.archived_files, 1);
    assert_eq!(out.calls.len(), 1, "nothing is counted twice");
    assert_eq!(out.totals.input_tokens, 5_000);
}

#[test]
fn rescan_is_idempotent() {
    let home = Home::new(&[
        ("2026/09/15", "current_token_usage_record.jsonl"),
        ("2026/09/16", "duplicate_active_archived.jsonl"),
        ("2026/09/15", "cache_write.jsonl"),
    ]);
    let first = scan_home(&home);
    let second = scan_home(&home);
    assert_eq!(first.totals.input_tokens, second.totals.input_tokens);
    assert_eq!(first.totals.output_tokens, second.totals.output_tokens);
    assert_eq!(first.calls.len(), second.calls.len());
    let third = scan_home(&home);
    assert_eq!(first.totals.input_tokens, third.totals.input_tokens);
}

#[test]
fn subsets_and_violations() {
    let home = Home::new(&[
        ("2026/09/15", "current_token_usage_record.jsonl"),
        ("2026/09/15", "cache_write.jsonl"),
        ("2026/09/15", "subagents.jsonl"),
    ]);
    let out = scan_home(&home);
    assert_eq!(out.diagnostics.subset_violations, 0);
    for c in &out.calls {
        assert!(c.usage.cached_input_tokens <= c.usage.input_tokens);
        assert!(c.usage.cache_write_input_tokens <= c.usage.input_tokens);
        assert!(c.usage.reasoning_output_tokens <= c.usage.output_tokens);
    }
}

#[test]
fn partial_last_line_is_tolerated() {
    let home = Home::new(&[("2026/09/17", "partial_last_line.jsonl")]);
    let out = scan_home(&home);
    assert_eq!(out.calls.len(), 1);
    assert_eq!(out.totals.input_tokens, 1_000);
    assert!(out.diagnostics.parse_errors.len() >= 1, "a message is owed");
}

#[test]
fn malformed_record_fails_locally_and_continues() {
    let home = Home::new(&[("2026/09/17", "malformed_record.jsonl")]);
    let out = scan_home(&home);
    assert_eq!(out.calls.len(), 1);
    assert_eq!(out.totals.input_tokens, 3_000);
    assert!(out.diagnostics.parse_errors.len() >= 1);
}

#[test]
fn multiple_models_attributed_exactly() {
    let home = Home::new(&[("2026/09/15", "multiple_models.jsonl")]);
    let out = scan_home(&home);
    assert_eq!(out.calls.len(), 3);
    let mut models: Vec<_> = out
        .calls
        .iter()
        .map(|c| (c.model_slug.clone().unwrap(), c.model_confidence))
        .collect();
    models.sort();
    assert_eq!(
        models,
        vec![
            ("gpt-5.6-luna".to_string(), ModelConfidence::Exact),
            ("gpt-5.6-sol".to_string(), ModelConfidence::Exact),
            ("gpt-6-astra".to_string(), ModelConfidence::Exact),
        ]
    );
}

#[test]
fn cache_write_codex_vs_api_profiles() {
    let home = Home::new(&[("2026/09/15", "cache_write.jsonl")]);
    let out = scan_home(&home);
    let call = &out.calls[0];
    assert_eq!(call.usage.ordinary_input(), 4_000);

    let engine = engine();
    let codex = engine.cost_codex(call);
    let expected_codex = (4_000.0 * 4.0 + 4_000.0 * 0.4 + 2_000.0 * 0.4 + 1_000.0 * 20.0) / 1e6;
    assert!((equivalent_cost(&engine.codex, &codex) - expected_codex).abs() < 1e-9);

    let api = engine.cost_api(call);
    let expected_api = (4_000.0 * 4.0 + 4_000.0 * 0.4 + 2_000.0 * 5.0 + 1_000.0 * 20.0) / 1e6;
    assert!((equivalent_cost(&engine.api, &api) - expected_api).abs() < 1e-9);
}

#[test]
fn long_context_is_per_call() {
    let home = Home::new(&[("2026/09/15", "long_context.jsonl")]);
    let out = scan_home(&home);
    let engine = engine();
    assert!(!engine.cost_codex(&out.calls[0]).long_context);
    assert!(engine.cost_codex(&out.calls[1]).long_context);
    assert!(!engine.cost_codex(&out.calls[2]).long_context);
    let long = engine.cost_codex(&out.calls[1]);
    let expected = (12_001.0 * 4.0 * 2.0 + 260_000.0 * 0.4 * 2.0 + 1_000.0 * 20.0 * 1.5) / 1e6;
    assert!((equivalent_cost(&engine.codex, &long) - expected).abs() < 1e-9);
}

#[test]
fn subagents_attributed_without_inventing() {
    let home = Home::new(&[("2026/09/15", "subagents.jsonl")]);
    let out = scan_home(&home);
    assert_eq!(out.calls.len(), 3);
    let of = |thread: &str| -> &InferenceCall {
        out.calls.iter().find(|c| c.thread_id.as_deref() == Some(thread)).unwrap()
    };
    assert_eq!(of("thread-main").model_slug.as_deref(), Some("gpt-6-astra"));
    assert_eq!(of("thread-subagent-1").model_slug.as_deref(), Some("gpt-5.6-sol"));
    let orphan = of("thread-subagent-2");
    assert_eq!(orphan.model_slug, None);
    assert_eq!(orphan.model_confidence, ModelConfidence::Unknown);
    assert_eq!(out.diagnostics.calls_unknown_model, 1);
}

#[test]
fn auto_review_uses_gpt54_rate_card() {
    let home = Home::new(&[("2026/09/18", "auto_review.jsonl")]);
    let out = scan_home(&home);
    assert_eq!(out.calls.len(), 1);
    let engine = engine();
    let cd = engine.cost_codex(&out.calls[0]);
    assert!(cd.model_known, "codex-auto-review is an alias of gpt-5.4");
    let expected = (10_675.0 * 2.5 + 4_864.0 * 0.25 + 160.0 * 15.0) / 1e6;
    assert!((equivalent_cost(&engine.codex, &cd) - expected).abs() < 1e-9);
}

#[test]
fn unknown_model_tokens_counted_cost_na() {
    let home = Home::new(&[("2026/09/15", "unknown_model.jsonl")]);
    let out = scan_home(&home);
    // The context of the turn stands behind its record.
    assert_eq!(out.calls.len(), 1);
    assert_eq!(out.calls[0].model_slug.as_deref(), Some("brand-new-model-9x"));
    let engine = engine();
    let cd = engine.cost_codex(&out.calls[0]);
    assert!(!cd.model_known, "a model without a rule is never priced");
    assert_eq!(equivalent_cost(&engine.codex, &cd), 0.0);
    assert!(cd.charges.is_empty());
    assert_eq!(out.totals.input_tokens, 7_000);
}

#[test]
fn period_filter_on_record_timestamp() {
    let home = Home::new(&[
        ("2026/09/15", "current_token_usage_record.jsonl"),
        ("2026/09/03", "legacy_token_count.jsonl"),
    ]);
    let out = scan_home(&home);
    let kept = filter_period(out.calls, Some("2026-09-11"), Some("2026-09-18"));
    assert_eq!(kept.len(), 2, "the legacy calls of 09/03 lie outside");
    let mut inp = 0;
    for c in &kept {
        inp += c.usage.input_tokens;
    }
    assert_eq!(inp, 30_000);
}

#[test]
fn cumulative_counters_never_leak_into_totals() {
    let home = Home::new(&[("2026/09/15", "current_token_usage_record.jsonl")]);
    let out = scan_home(&home);
    assert!(out.totals.input_tokens < 1_000_000);
    assert_eq!(out.totals.input_tokens, 30_000);
}

#[test]
fn same_session_never_mixes_primary_and_legacy_across_files() {
    let mut home = Home::new(&[("2026/09/15", "current_token_usage_record.jsonl")]);
    let legacy = fixture("legacy_token_count.jsonl").replace("sess-legacy", "sess-primary");
    home.write("sessions/2026/09/03/rollout-legacy-same-session.jsonl", &legacy);
    let out = scan_home(&home);
    assert_eq!(out.calls.len(), 2, "only the usage records of sess-primary count");
    assert!(out.calls.iter().all(|c| c.source_format == SourceFormat::TokenUsageRecord));
    assert_eq!(out.totals.input_tokens, 30_000);
    assert_eq!(out.diagnostics.legacy_records, 0, "a covered file is no source");
}

#[test]
fn legacy_before_the_header_of_a_covered_session_does_not_count() {
    let mut home = Home::new(&[("2026/09/15", "current_token_usage_record.jsonl")]);
    let early = legacy("2026-09-03T09:00:00.000Z", &usage(7, 0, 0, 7, 0))
        + &meta("2026-09-03T10:00:00.000Z", "sess-primary", "/x");
    home.write("sessions/2026/09/03/rollout-early.jsonl", &early);
    let out = scan_home(&home);
    assert_eq!(out.totals.input_tokens, 30_000);
}

#[test]
fn diagnostics_count_what_was_met() {
    let mut home = Home::new(&[
        ("2026/09/15", "current_token_usage_record.jsonl"),
        ("2026/09/17", "malformed_record.jsonl"),
    ]);
    home.write("sessions/2026/09/18/notes.txt", "not a log");
    let (files, mut contents) = home.listing();
    assert_eq!(files.len(), 2, "only log files are read");
    contents[1] = FileContent::Unreadable("open failed: nowhere".to_string());
    let out = scan(HOME.to_string(), files, &contents);
    let d = &out.diagnostics;
    assert_eq!(d.files_found, 2);
    assert_eq!(d.files_parsed, 1);
    assert_eq!(d.files_failed, 1);
    assert_eq!(d.lines_total, 6);
    assert_eq!(d.unique_response_ids, 2);
    assert_eq!(d.parse_errors, vec!["open failed: nowhere".to_string()]);
    assert_eq!(out.legacy_totals().input_tokens, 0);
}

#[test]
fn a_copy_of_a_file_adds_no_call() {
    let mut home = Home::new(&[("2026/09/03", "legacy_token_count.jsonl")]);
    let once = scan_home(&home);
    home.write(
        "archived_sessions/2026/09/03/rollout-copy.jsonl",
        &fixture("legacy_token_count.jsonl"),
    );
    let twice = scan_home(&home);
    assert_eq!(once.calls.len(), twice.calls.len());
    assert_eq!(once.totals, twice.totals);
    assert_eq!(twice.diagnostics.duplicates_ignored, 2);
}
