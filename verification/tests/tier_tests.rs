use codex_meter::discovery::SourceFile;
use codex_meter::discovery::discover;
use codex_meter::import::import;
use codex_meter::import::load_calls;
use codex_meter::model::InferenceCall;
use codex_meter::model::ServiceTier;
use codex_meter::parser::FileContent;
use codex_meter::pricing::Charge;
use codex_meter::pricing::CostBreakdown;
use codex_meter::pricing::PricingCatalog;
use codex_meter::pricing::PricingEngine;
use codex_meter::pricing::PricingRule;
use codex_meter::pricing::Rate;
use codex_meter::pricing::confident_calls;
use codex_meter::pricing::default_threshold;
use codex_meter::pricing::default_unit;
use codex_meter::pricing::tier_stats;
use codex_meter::scan::ScanOutcome;
use codex_meter::scan::scan;
use codex_meter::store::Store;
use codex_meter::util::iso_utc;

fn usage(input: u64, cached: u64, write: u64, output: u64, reasoning: u64) -> String {
    format!(
        "{{\"input_tokens\":{},\"cached_input_tokens\":{},\"cache_write_input_tokens\":{},\"output_tokens\":{},\"reasoning_output_tokens\":{},\"total_tokens\":{}}}",
        input, cached, write, output, reasoning, input + output
    )
}

fn meta(ts: &str, session: &str, cwd: &str) -> String {
    format!(
        "{{\"timestamp\":\"{}\",\"type\":\"session_meta\",\"payload\":{{\"id\":\"{}\",\"timestamp\":\"{}\",\"cwd\":\"{}\",\"originator\":\"Codex CLI\",\"cli_version\":\"0.156.0\"}}}}\n",
        ts, session, ts, cwd
    )
}

fn turn(ts: &str, turn: &str, model: &str) -> String {
    format!(
        "{{\"timestamp\":\"{}\",\"type\":\"turn_context\",\"payload\":{{\"turn_id\":\"{}\",\"model\":\"{}\",\"root_turn_id\":\"{}\"}}}}\n",
        ts, turn, model, turn
    )
}

fn record(ts: &str, session: &str, thread: &str, turn: &str, rid: &str, usage: &str) -> String {
    format!(
        "{{\"timestamp\":\"{}\",\"type\":\"token_usage_record\",\"payload\":{{\"session_id\":\"{}\",\"thread_id\":\"{}\",\"turn_id\":\"{}\",\"root_turn_id\":\"{}\",\"response_id\":\"{}\",\"usage\":{},\"turn_token_usage\":{{\"input_tokens\":444000000}},\"thread_token_usage\":{{\"input_tokens\":999000000000}}}}}}\n",
        ts, session, thread, turn, turn, rid, usage
    )
}

fn legacy(ts: &str, last: &str) -> String {
    format!(
        "{{\"timestamp\":\"{}\",\"type\":\"event_msg\",\"payload\":{{\"type\":\"token_count\",\"info\":{{\"last_token_usage\":{},\"total_token_usage\":{{\"input_tokens\":999900000000,\"output_tokens\":999900000000}}}}}}}}\n",
        ts, last
    )
}

fn settings(ts: &str, thread: &str, tier: &str) -> String {
    format!(
        "{{\"timestamp\":\"{}\",\"type\":\"event_msg\",\"payload\":{{\"type\":\"thread_settings_applied\",\"thread_id\":\"{}\",\"thread_settings\":{{\"service_tier\":\"{}\"}}}}}}\n",
        ts, thread, tier
    )
}

fn fixture(name: &str) -> String {
    match name {
        "current_token_usage_record.jsonl" => {
            meta("2026-09-15T08:00:00.000Z", "sess-primary", "/Users/fmahia/Dev/Alpha")
                + &turn("2026-09-15T08:00:01.000Z", "turn-1", "gpt-6-astra")
                + "{\"timestamp\":\"2026-09-15T08:00:02.000Z\",\"type\":\"response_item\",\"payload\":{\"type\":\"message\"}}\n"
                + &record(
                    "2026-09-15T08:01:00.000Z",
                    "sess-primary",
                    "thread-1",
                    "turn-1",
                    "resp-1",
                    &usage(10_000, 8_000, 0, 1_000, 600),
                )
                + &legacy("2026-09-15T08:01:01.000Z", &usage(10_000, 8_000, 0, 1_000, 600))
                + &record(
                    "2026-09-15T08:02:00.000Z",
                    "sess-primary",
                    "thread-1",
                    "turn-1",
                    "resp-2",
                    &usage(20_000, 15_000, 0, 2_000, 1_200),
                )
        }
        "fast_mode.jsonl" => {
            meta("2026-09-15T09:58:00.000Z", "sess-fast", "/Users/fmahia/Dev/Fast")
                + &turn("2026-09-15T09:58:01.000Z", "turn-f", "gpt-6-astra")
                + &settings("2026-09-15T10:00:00.000Z", "thread-f", "fast")
                + &record(
                    "2026-09-15T10:00:05.000Z",
                    "sess-fast",
                    "thread-f",
                    "turn-f",
                    "resp-fast-1",
                    &usage(1_000, 0, 0, 100, 0),
                )
                + &record(
                    "2026-09-15T09:59:00.000Z",
                    "sess-fast",
                    "thread-f",
                    "turn-f",
                    "resp-fast-2",
                    &usage(2_000, 0, 0, 200, 0),
                )
        }
        "thread_settings_only.jsonl" => {
            meta("2026-09-15T11:00:00.000Z", "sess-tieronly", "/Users/fmahia/Dev/TierProj")
                + &settings("2026-09-15T11:00:01.000Z", "thread-tier", "fast")
        }
        _ => panic!("no such fixture"),
    }
}

const HOME: &str = "/home/someone/.codex";

struct Home {
    /// Path below the home, content, and a time of change.
    files: Vec<(String, Vec<u8>, i64)>,
    clock: i64,
}

impl Home {
    fn new(layout: &[(&str, &str)]) -> Home {
        let mut home = Home { files: Vec::new(), clock: 0 };
        for (subdir, name) in layout {
            home.write(&format!("sessions/{}/rollout-{}", subdir, name), &fixture(name));
        }
        home
    }

    fn write(&mut self, path: &str, content: &str) {
        self.clock += 1;
        let bytes = content.as_bytes().to_vec();
        self.files.retain(|f| f.0 != path);
        self.files.push((path.to_string(), bytes, self.clock));
    }

    fn listing(&self) -> (Vec<SourceFile>, Vec<FileContent>) {
        let below = |dir: &str| -> Vec<SourceFile> {
            self.files
                .iter()
                .filter(|f| f.0.starts_with(dir))
                .map(|f| SourceFile {
                    path: format!("{}/{}", HOME, f.0),
                    archived: false,
                    size: f.1.len() as u64,
                    mtime_unix: Some(f.2),
                })
                .collect()
        };
        let files = discover(below("sessions/"), below("archived_sessions/"));
        let contents = files
            .iter()
            .map(|s| {
                let f = self.files.iter().find(|f| format!("{}/{}", HOME, f.0) == s.path).unwrap();
                FileContent::Whole(f.1.clone())
            })
            .collect();
        (files, contents)
    }
}

fn scan_home(home: &Home) -> ScanOutcome {
    let (files, contents) = home.listing();
    scan(HOME.to_string(), files, &contents)
}

fn rule(model: &str, alias: &[&str], own_write_rate: bool, long: bool, fast: bool) -> PricingRule {
    PricingRule {
        model: model.to_string(),
        aliases: alias.iter().map(|a| a.to_string()).collect(),
        effective_from: None,
        effective_until: None,
        has_cache_write_rate: own_write_rate,
        long_context: long,
        long_context_threshold: default_threshold(),
        has_fast_multiplier: fast,
    }
}

fn catalog(profile: &str, version: &str, own_write_rate: bool) -> PricingCatalog {
    PricingCatalog {
        catalog: format!("openai-{}", profile),
        profile: profile.to_string(),
        version: version.to_string(),
        currency: "USD".to_string(),
        unit: default_unit(),
        source_url: "https://example.org/pricing".to_string(),
        last_verified: "2026-09-23".to_string(),
        notes: Vec::new(),
        rules: vec![
            rule("gpt-6-astra", &[], own_write_rate, false, true),
            rule("gpt-5.6-sol", &[], own_write_rate, true, true),
            rule("gpt-5.6-luna", &[], own_write_rate, true, true),
            rule("gpt-5.4", &["codex-auto-review"], own_write_rate, true, false),
        ],
    }
}

fn engine() -> PricingEngine {
    PricingEngine {
        codex: catalog("codex", "2026-09-23", false),
        api: catalog("api", "2026-09-23", true),
    }
}

/// Dollars per million tokens: input, cached, output.
fn rates(model: &str) -> (f64, f64, f64) {
    match model {
        "gpt-6-astra" => (10.0, 1.0, 50.0),
        "gpt-5.6-sol" => (4.0, 0.4, 20.0),
        "gpt-5.6-luna" => (0.2, 0.02, 1.2),
        "gpt-5.4" => (2.5, 0.25, 15.0),
        _ => panic!("no such rule"),
    }
}

fn amount(c: &Charge, cd: &CostBreakdown, rates: (f64, f64, f64)) -> f64 {
    let long = cd.long_context;
    let scale = if c.scaled && cd.fast_applied { 2.5 } else { 1.0 };
    let rate = match c.rate {
        Rate::Input => rates.0 * if long { 2.0 } else { 1.0 },
        Rate::Cached => rates.1 * if long { 2.0 } else { 1.0 },
        Rate::CacheWrite => rates.0 * 1.25 * if long { 2.0 } else { 1.0 },
        Rate::Output => rates.2 * if long { 1.5 } else { 1.0 },
    };
    c.tokens as f64 * rate * scale / 1e6
}

fn equivalent_cost(profile: &PricingCatalog, cd: &CostBreakdown) -> f64 {
    match cd.rule {
        Some(i) => {
            let r = rates(&profile.rules[i].model);
            cd.charges.iter().map(|c| amount(c, cd, r)).sum()
        }
        None => 0.0,
    }
}

#[test]
fn service_tier_fast_applies_multiplier_and_no_retroactivity() {
    let home = Home::new(&[("2026/09/15", "fast_mode.jsonl")]);
    let out = scan_home(&home);
    assert_eq!(out.calls.len(), 2);

    let of = |rid: &str| -> &InferenceCall {
        out.calls.iter().find(|c| c.response_id.as_deref() == Some(rid)).unwrap()
    };
    // resp-fast-1 stands behind the settings in time.
    let fast = of("resp-fast-1");
    assert_eq!(fast.service_tier, ServiceTier::Fast);
    let engine = engine();
    let cd = engine.cost_codex(fast);
    assert!(cd.fast_applied);
    assert!((equivalent_cost(&engine.codex, &cd) - 0.0375).abs() < 1e-9);

    // resp-fast-2 was made before the settings were applied.
    let before = of("resp-fast-2");
    assert_eq!(before.service_tier, ServiceTier::Unknown);
    let cd_before = engine.cost_codex(before);
    assert!(!cd_before.fast_applied);
    assert!((equivalent_cost(&engine.codex, &cd_before) - 0.03).abs() < 1e-9);

    let conf = confident_calls(&out.calls) as f64 / out.calls.len() as f64 * 100.0;
    assert!((conf - 50.0).abs() < 1e-9);
    let stats = tier_stats(&out.calls);
    assert_eq!(stats, (1, 0, 1));
}

#[test]
fn tier_db_fallback_across_files() {
    let mut home = Home::new(&[]);
    home.write(
        "sessions/2026/09/15/rollout-settings.jsonl",
        &fixture("thread_settings_only.jsonl"),
    );
    let engine = engine();
    let mut store = Store::new();
    let mut run = |home: &Home, store: &mut Store| {
        let (files, contents) = home.listing();
        import(store, HOME, &files, &contents, &None, &engine, false, false);
    };
    run(&home, &mut store);

    let call_only = "{\"timestamp\":\"2026-09-15T11:30:00.000Z\",\"type\":\"session_meta\",\"payload\":{\"id\":\"sess-tieronly\",\"timestamp\":\"2026-09-15T11:30:00.000Z\",\"cwd\":\"/Users/fmahia/Dev/TierProj\",\"originator\":\"Codex CLI\",\"cli_version\":\"0.156.0\"}}\n{\"timestamp\":\"2026-09-15T11:30:02.000Z\",\"type\":\"token_usage_record\",\"payload\":{\"session_id\":\"sess-tieronly\",\"thread_id\":\"thread-tier\",\"turn_id\":\"turn-t\",\"root_turn_id\":\"turn-t\",\"response_id\":\"resp-tier-1\",\"usage\":{\"input_tokens\":1000,\"cached_input_tokens\":0,\"cache_write_input_tokens\":0,\"output_tokens\":100,\"reasoning_output_tokens\":50,\"total_tokens\":1100}}}\n";
    home.write("sessions/2026/09/15/rollout-call.jsonl", call_only);
    run(&home, &mut store);
    let tier = |store: &Store, rid: &str| -> String {
        let calls = load_calls(store, None, None);
        let c = calls.iter().find(|c| c.response_id.as_deref() == Some(rid)).unwrap();
        c.service_tier.as_str().to_string()
    };
    assert_eq!(tier(&store, "resp-tier-1"), "fast", "the settings came before the call");

    let early = "{\"timestamp\":\"2026-09-15T10:30:00.000Z\",\"type\":\"session_meta\",\"payload\":{\"id\":\"sess-tieronly\",\"timestamp\":\"2026-09-15T10:30:00.000Z\",\"cwd\":\"/Users/fmahia/Dev/TierProj\",\"originator\":\"Codex CLI\",\"cli_version\":\"0.156.0\"}}\n{\"timestamp\":\"2026-09-15T10:30:02.000Z\",\"type\":\"token_usage_record\",\"payload\":{\"session_id\":\"sess-tieronly\",\"thread_id\":\"thread-tier\",\"turn_id\":\"turn-t2\",\"root_turn_id\":\"turn-t2\",\"response_id\":\"resp-tier-early\",\"usage\":{\"input_tokens\":500,\"cached_input_tokens\":0,\"cache_write_input_tokens\":0,\"output_tokens\":50,\"reasoning_output_tokens\":25,\"total_tokens\":550}}}\n";
    home.write("sessions/2026/09/15/rollout-call-early.jsonl", early);
    run(&home, &mut store);
    assert_eq!(tier(&store, "resp-tier-early"), "unknown", "settings are never applied backwards");
}

#[test]
fn tier_unknown_by_default_without_settings() {
    let mut home = Home::new(&[]);
    home.write(
        "sessions/2026/09/15/rollout-plain.jsonl",
        &fixture("current_token_usage_record.jsonl"),
    );
    let out = scan_home(&home);
    assert!(out.calls.iter().all(|c: &InferenceCall| c.service_tier == ServiceTier::Unknown));
    let confidence = confident_calls(&out.calls) as f64 / out.calls.len() as f64 * 100.0;
    assert_eq!(confidence, 0.0, "no confidence without a tier");
}

#[test]
fn util_iso_roundtrip_dates() {
    assert_eq!(iso_utc(0), "1970-01-01T00:00:00Z");
    assert_eq!(iso_utc(1_758_196_800), "2025-09-18T12:00:00Z");
}

#[test]
fn iso_dates_at_the_edges() {
    assert_eq!(iso_utc(951_782_399), "2000-02-28T23:59:59Z");
    assert_eq!(iso_utc(951_782_400), "2000-02-29T00:00:00Z");
    assert_eq!(iso_utc(4_107_542_400), "2100-03-01T00:00:00Z");
    assert_eq!(iso_utc(253_402_300_799), "9999-12-31T23:59:59Z");
    assert_eq!(iso_utc(253_402_300_800), "10000-01-01T00:00:00Z");
}

#[test]
fn tiers_are_filled_in_and_prices_follow() {
    // The call comes first; its settings arrive later in another file, and a copy repairs it.
    let mut home = Home::new(&[]);
    let call = meta("2026-09-15T11:30:00.000Z", "s", "/x")
        + &turn("2026-09-15T11:30:00.000Z", "u", "gpt-6-astra")
        + &record("2026-09-15T11:30:02.000Z", "s", "t", "u", "r", &usage(1_000, 0, 0, 100, 0));
    home.write("sessions/a/rollout-1.jsonl", &call);
    let engine = engine();
    let mut store = Store::new();
    let (files, contents) = home.listing();
    import(&mut store, HOME, &files, &contents, &None, &engine, false, false);
    assert_eq!(store.pricing.len(), 1);
    assert!(!store.pricing.value_at(0).cost.fast_applied);

    home.write("sessions/a/rollout-2.jsonl", &(settings("2026-09-15T11:00:00.000Z", "t", "fast")));
    home.write("sessions/a/rollout-3.jsonl", &call);
    let (files, contents) = home.listing();
    let rep = import(&mut store, HOME, &files, &contents, &None, &engine, false, false);
    assert_eq!(rep.calls_inserted, 0);
    assert_eq!(rep.tiers_repaired, 1);
    assert!(rep.repriced);
    assert!(store.pricing.value_at(0).cost.fast_applied);
}
