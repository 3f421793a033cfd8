use codex_meter::aggregate::Anomaly;
use codex_meter::aggregate::by_activity;
use codex_meter::aggregate::by_day;
use codex_meter::aggregate::by_model;
use codex_meter::aggregate::by_project;
use codex_meter::aggregate::by_thread;
use codex_meter::aggregate::confidence_stats;
use codex_meter::aggregate::detect_anomalies;
use codex_meter::aggregate::project_name;
use codex_meter::aggregate::total_of;
use codex_meter::format::TokenUnit;
use codex_meter::format::fmt_cents;
use codex_meter::format::fmt_int;
use codex_meter::format::token_unit;
use codex_meter::model::InferenceCall;
use codex_meter::model::ModelConfidence;
use codex_meter::model::ServiceTier;
use codex_meter::model::SourceFormat;
use codex_meter::model::TokenUsage;
use codex_meter::pricing::Charge;
use codex_meter::pricing::CostBreakdown;
use codex_meter::pricing::PricingCatalog;
use codex_meter::pricing::PricingEngine;
use codex_meter::pricing::PricingRule;
use codex_meter::pricing::Rate;
use codex_meter::pricing::default_threshold;
use codex_meter::pricing::default_unit;
use codex_meter::pricing::priced;
use codex_meter::pricing::usage_of;

fn rule(model: &str, alias: &[&str], own_write_rate: bool, long: bool, fast: bool) -> PricingRule {
    PricingRule {
        model: model.to_string(),
        aliases: alias.iter().map(|a| a.to_string()).collect(),
        effective_from: None,
        effective_until: None,
        has_cache_write_rate: own_write_rate,
        long_context: long,
        long_context_threshold: default_threshold(),
        has_fast_multiplier: fast,
    }
}

fn catalog(profile: &str, version: &str, own_write_rate: bool) -> PricingCatalog {
    PricingCatalog {
        catalog: format!("openai-{}", profile),
        profile: profile.to_string(),
        version: version.to_string(),
        currency: "USD".to_string(),
        unit: default_unit(),
        source_url: "https://example.org/pricing".to_string(),
        last_verified: "2026-09-23".to_string(),
        notes: Vec::new(),
        rules: vec![
            rule("gpt-6-astra", &[], own_write_rate, false, true),
            rule("gpt-5.6-sol", &[], own_write_rate, true, true),
            rule("gpt-5.6-luna", &[], own_write_rate, true, true),
            rule("gpt-5.4", &["codex-auto-review"], own_write_rate, true, false),
        ],
    }
}

fn engine() -> PricingEngine {
    PricingEngine {
        codex: catalog("codex", "2026-09-23", false),
        api: catalog("api", "2026-09-23", true),
    }
}

/// Dollars per million tokens: input, cached, output.
fn rates(model: &str) -> (f64, f64, f64) {
    match model {
        "gpt-6-astra" => (10.0, 1.0, 50.0),
        "gpt-5.6-sol" => (4.0, 0.4, 20.0),
        "gpt-5.6-luna" => (0.2, 0.02, 1.2),
        "gpt-5.4" => (2.5, 0.25, 15.0),
        _ => panic!("no such rule"),
    }
}

fn amount(c: &Charge, cd: &CostBreakdown, rates: (f64, f64, f64)) -> f64 {
    let long = cd.long_context;
    let scale = if c.scaled && cd.fast_applied { 2.5 } else { 1.0 };
    let rate = match c.rate {
        Rate::Input => rates.0 * if long { 2.0 } else { 1.0 },
        Rate::Cached => rates.1 * if long { 2.0 } else { 1.0 },
        Rate::CacheWrite => rates.0 * 1.25 * if long { 2.0 } else { 1.0 },
        Rate::Output => rates.2 * if long { 1.5 } else { 1.0 },
    };
    c.tokens as f64 * rate * scale / 1e6
}

fn equivalent_cost(profile: &PricingCatalog, cd: &CostBreakdown) -> f64 {
    match cd.rule {
        Some(i) => {
            let r = rates(&profile.rules[i].model);
            cd.charges.iter().map(|c| amount(c, cd, r)).sum()
        }
        None => 0.0,
    }
}

fn call(model: &str, input: u64) -> InferenceCall {
    InferenceCall {
        event_uid: format!("test-{model}-{input}"),
        response_id: None,
        timestamp_utc: Some("2026-09-15T12:00:00Z".to_string()),
        session_id: None,
        thread_id: None,
        turn_id: None,
        root_turn_id: None,
        model_slug: Some(model.to_string()),
        model_confidence: ModelConfidence::Exact,
        service_tier: ServiceTier::Unknown,
        project_path: None,
        activity: None,
        parent_thread_id: None,
        thread_title: None,
        usage: TokenUsage {
            input_tokens: input,
            cached_input_tokens: 0,
            cache_write_input_tokens: 0,
            output_tokens: 1000,
            reasoning_output_tokens: 0,
            total_tokens: input + 1000,
        },
        source_format: SourceFormat::TokenUsageRecord,
        source_file: "test".to_string(),
        source_ordinal: 0,
        archived: false,
    }
}

#[test]
fn long_context_boundary() {
    let engine = engine();
    let short = engine.cost_codex(&call("gpt-5.6-sol", 272_000));
    let long = engine.cost_codex(&call("gpt-5.6-sol", 272_001));
    assert!(!short.long_context);
    assert!(long.long_context);
}

#[test]
fn astra_has_no_long_context_multiplier() {
    let engine = engine();
    let long = engine.cost_codex(&call("gpt-6-astra", 300_000));
    assert!(!long.long_context);
}

#[test]
fn auto_review_alias_resolves_to_gpt54() {
    let engine = engine();
    let c = engine.cost_codex(&call("codex-auto-review", 1000));
    assert!(c.model_known);
}

#[test]
fn unknown_model_never_priced() {
    let engine = engine();
    let c = engine.cost_codex(&call("totally-new-model", 1000));
    assert!(!c.model_known);
    assert_eq!(equivalent_cost(&engine.codex, &c), 0.0);
}

#[test]
fn charges_are_told_exactly() {
    let engine = engine();
    let mut c = call("gpt-5.6-sol", 10_000);
    c.usage.cached_input_tokens = 4_000;
    c.usage.cache_write_input_tokens = 2_000;
    let codex = engine.cost_codex(&c);
    assert_eq!(codex.rule, Some(1));
    assert_eq!(
        codex.charges,
        vec![
            Charge { tokens: 4_000, rate: Rate::Input, scaled: true },
            Charge { tokens: 4_000, rate: Rate::Cached, scaled: true },
            Charge { tokens: 2_000, rate: Rate::Cached, scaled: true },
            Charge { tokens: 1_000, rate: Rate::Output, scaled: true },
        ]
    );
    assert_eq!(
        codex.charges_without_cache,
        vec![
            Charge { tokens: 10_000, rate: Rate::Input, scaled: true },
            Charge { tokens: 1_000, rate: Rate::Output, scaled: true },
        ]
    );
    let api = engine.cost_api(&c);
    assert_eq!(
        api.charges[2],
        Charge { tokens: 2_000, rate: Rate::CacheWrite, scaled: false }
    );
}

#[test]
fn rules_hold_within_their_period() {
    let mut engine = engine();
    engine.codex.rules[1].effective_from = Some("2026-09-15".to_string());
    engine.codex.rules[1].effective_until = Some("2026-09-15".to_string());
    let mut c = call("gpt-5.6-sol", 1);
    assert!(engine.cost_codex(&c).model_known);
    c.timestamp_utc = Some("2026-09-14T23:59:59Z".to_string());
    assert!(!engine.cost_codex(&c).model_known);
    c.timestamp_utc = Some("2026-09-16T00:00:00Z".to_string());
    assert!(!engine.cost_codex(&c).model_known);
    c.timestamp_utc = None;
    assert!(!engine.cost_codex(&c).model_known, "\"unknown\" stands behind every day");
}

#[test]
fn priced_tells_what_it_is_about() {
    let engine = engine();
    let (cost, confidence, format) = priced(&engine, &call("gpt-6-astra", 1));
    assert!(cost.unwrap().model_known);
    assert_eq!(confidence, ModelConfidence::Exact);
    assert_eq!(format, SourceFormat::TokenUsageRecord);
    assert!(priced(&engine, &call("nobody", 1)).0.is_none());
    assert_eq!(usage_of(&vec![call("a", 1), call("b", 2)]).input_tokens, 3);
}

#[test]
fn buckets_split_the_calls() {
    let engine = engine();
    let mut calls = vec![
        call("gpt-6-astra", 10),
        call("gpt-5.6-sol", 300_000),
        call("nobody", 5),
        call("codex-auto-review", 7),
    ];
    calls[0].project_path = Some("/a/b/Alpha/".to_string());
    calls[1].thread_id = Some("t".to_string());
    calls[2].model_slug = None;
    calls[3].timestamp_utc = None;
    let days = by_day(&calls, &engine);
    assert_eq!(days.get("2026-09-15").unwrap().calls, 3);
    assert_eq!(days.get("unknown").unwrap().usage.input_tokens, 7);
    let models = by_model(&calls, &engine);
    assert_eq!(models.len(), 4);
    let none = models.get("<unknown>").unwrap();
    assert_eq!(none.unknown_model_calls, 1);
    assert_eq!(none.unknown_model_tokens, 1005);
    assert_eq!(models.get("gpt-5.6-sol").unwrap().long_context_calls, 1);
    assert_eq!(by_project(&calls, &engine).get("Alpha").unwrap().calls, 1);
    assert_eq!(by_project(&calls, &engine).get("<unknown>").unwrap().calls, 3);
    assert_eq!(by_thread(&calls, &engine).get("t").unwrap().calls, 1);
    let acts = by_activity(&calls, &engine);
    assert_eq!(acts.get("auto_review").unwrap().calls, 1);
    assert_eq!(acts.get("unknown").unwrap().calls, 3, "no activity is made up");
    assert_eq!(acts.len(), 2);
    let mut sum = 0;
    for i in 0..acts.len() {
        sum += acts.value_at(i).usage.input_tokens;
    }
    assert_eq!(sum, total_of(&calls, &engine).usage.input_tokens);
    assert_eq!(confidence_stats(&calls), (4, 0, 0));
    assert_eq!(project_name("///"), "///");
    assert_eq!(project_name("a"), "a");
}

#[test]
fn anomalies_are_found_at_their_limits() {
    let engine = engine();
    let find = |calls: &Vec<InferenceCall>| -> Vec<Anomaly> {
        detect_anomalies(
            calls,
            &by_day(calls, &engine),
            &by_activity(calls, &engine),
            total_of(calls, &engine).long_context_calls,
        )
    };
    let mut calls = vec![call("codex-auto-review", 10), call("gpt-6-astra", 90)];
    assert_eq!(find(&calls), Vec::new(), "a tenth is no anomaly");
    calls[0].usage.input_tokens = 11;
    assert_eq!(find(&calls), vec![Anomaly::AutoReview { input: 11, total: 101 }]);

    let mut big = call("gpt-5.6-sol", 10_000_001);
    big.thread_id = Some("t".to_string());
    big.usage.cached_input_tokens = 7_000_000;
    assert_eq!(
        find(&vec![big.clone()]),
        vec![
            Anomaly::LongContext(1),
            Anomaly::LowCache { thread: "t".to_string(), cached: 7_000_000, input: 10_000_001 },
            Anomaly::HeavyThread { thread: "t".to_string(), input: 10_000_001 },
        ]
    );
    big.usage.cached_input_tokens = 7_000_001;
    assert_eq!(find(&vec![big]).len(), 2, "70 % is enough");

    let mut days = vec![call("gpt-6-astra", 40), call("gpt-6-astra", 10), call("gpt-6-astra", 9)];
    days[1].timestamp_utc = Some("2026-09-16T12:00:00Z".to_string());
    days[2].timestamp_utc = Some("2026-09-17T12:00:00Z".to_string());
    assert_eq!(
        find(&days),
        vec![Anomaly::BusyDay { day: "2026-09-15".to_string(), input: 40, total: 59, days: 3 }]
    );
    days[2].usage.input_tokens = 10;
    assert_eq!(find(&days), Vec::new(), "twice the average is no anomaly");
}

#[test]
fn at_most_five_threads_with_little_cache() {
    let engine = engine();
    let calls: Vec<InferenceCall> = (0..8)
        .map(|i| {
            let mut c = call("gpt-6-astra", 100_001);
            c.thread_id = Some(format!("t{}", 7 - i));
            c
        })
        .collect();
    let found = detect_anomalies(&calls, &by_day(&calls, &engine), &by_activity(&calls, &engine), 0);
    let names: Vec<String> = found
        .into_iter()
        .map(|a| match a {
            Anomaly::LowCache { thread, .. } => thread,
            _ => panic!("no other anomaly"),
        })
        .collect();
    assert_eq!(names, vec!["t0", "t1", "t2", "t3", "t4"]);
}

#[test]
fn usage_adds_up_and_wraps() {
    let mut u = call("a", 5).usage;
    let mut v = u;
    v.input_tokens = u64::MAX;
    u.add(&v);
    assert_eq!(u.input_tokens, 4);
    assert_eq!(u.output_tokens, 2000);
    assert!(!u.subset_violation());
    u.cached_input_tokens = 5;
    assert!(u.subset_violation());
    assert_eq!(u.ordinary_input(), 0);
}

#[test]
fn days_of_odd_timestamps() {
    let mut c = call("a", 1);
    assert_eq!(c.day(), "2026-09-15");
    c.timestamp_utc = Some("2026-09-1".to_string());
    assert_eq!(c.day(), "unknown");
    c.timestamp_utc = Some("2026/09/15T12".to_string());
    assert_eq!(c.day(), "unknown");
    c.timestamp_utc = Some("2026-09-1é0".to_string());
    assert_eq!(c.day(), "unknown");
}

#[test]
fn numbers_as_they_are_shown() {
    assert_eq!(fmt_int(0), "0");
    assert_eq!(fmt_int(999), "999");
    assert_eq!(fmt_int(1_000), "1,000");
    assert_eq!(fmt_int(1_234_567), "1,234,567");
    assert_eq!(fmt_int(u64::MAX), "18,446,744,073,709,551,615");
    assert_eq!(fmt_cents(false, 73_028), "$730.28");
    assert_eq!(fmt_cents(true, 498_405), "-$4,984.05");
    assert_eq!(fmt_cents(false, 200), "$2.00");
    assert_eq!(token_unit(999), TokenUnit::One);
    assert_eq!(token_unit(1_000), TokenUnit::Thousand);
    assert_eq!(token_unit(1_000_000), TokenUnit::Million);
    assert_eq!(token_unit(1_000_000_000), TokenUnit::Billion);
}
