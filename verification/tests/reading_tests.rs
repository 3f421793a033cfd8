use codex_meter::aggregate::by_thread;
use codex_meter::discovery::SourceFile;
use codex_meter::discovery::codex_home;
use codex_meter::discovery::discover;
use codex_meter::discovery::is_log;
use codex_meter::discovery::relative_path;
use codex_meter::export::BucketFigures;
use codex_meter::export::bucket_csv;
use codex_meter::export::calls_csv;
use codex_meter::frame::read_frame;
use codex_meter::line::LineContent;
use codex_meter::line::read_line;
use codex_meter::model::InferenceCall;
use codex_meter::model::ModelConfidence;
use codex_meter::model::RawUsageEvent;
use codex_meter::model::RootModel;
use codex_meter::model::ServiceTier;
use codex_meter::model::SessionMeta;
use codex_meter::model::SourceFormat;
use codex_meter::model::TierSetting;
use codex_meter::model::TokenUsage;
use codex_meter::parser::FileContent;
use codex_meter::parser::event_uid;
use codex_meter::parser::finalize_call;
use codex_meter::parser::parse_file;
use codex_meter::parser::parse_file_from;
use codex_meter::parser::resolve_model;
use codex_meter::parser::resolve_tier;
use codex_meter::parser::truncate_err;
use codex_meter::pricing::PricingCatalog;
use codex_meter::pricing::PricingEngine;
use codex_meter::pricing::PricingRule;
use codex_meter::pricing::default_threshold;
use codex_meter::pricing::default_unit;
use codex_meter::scan::ScanOutcome;
use codex_meter::scan::scan;
use codex_meter::state::StateRow;
use codex_meter::state::classify;
use codex_meter::state::read_threads;
use codex_meter::state::thread_activity_counts;
use codex_meter::text_map::TextMap;
use codex_meter::ui::EdgeCursor;
use codex_meter::ui::diagnostics;
use codex_meter::ui::edge_cursor;
use codex_meter::ui::period_note;
use codex_meter::ui::pricing_info;
use codex_meter::ui::quiet_period;
use codex_meter::ui::shown_errors;
use codex_meter::ui::thread_label;
use codex_meter::ui::top_threads;
use codex_meter::watch::WatchAction;
use codex_meter::watch::WatchEvent;
use codex_meter::watch::watch_start;
use codex_meter::watch::watch_step;

fn usage(input: u64, cached: u64, write: u64, output: u64, reasoning: u64) -> String {
    format!(
        "{{\"input_tokens\":{},\"cached_input_tokens\":{},\"cache_write_input_tokens\":{},\"output_tokens\":{},\"reasoning_output_tokens\":{},\"total_tokens\":{}}}",
        input, cached, write, output, reasoning, input + output
    )
}

fn meta(ts: &str, session: &str, cwd: &str) -> String {
    format!(
        "{{\"timestamp\":\"{}\",\"type\":\"session_meta\",\"payload\":{{\"id\":\"{}\",\"timestamp\":\"{}\",\"cwd\":\"{}\",\"originator\":\"Codex CLI\",\"cli_version\":\"0.156.0\"}}}}\n",
        ts, session, ts, cwd
    )
}

fn turn(ts: &str, turn: &str, model: &str) -> String {
    format!(
        "{{\"timestamp\":\"{}\",\"type\":\"turn_context\",\"payload\":{{\"turn_id\":\"{}\",\"model\":\"{}\",\"root_turn_id\":\"{}\"}}}}\n",
        ts, turn, model, turn
    )
}

fn record(ts: &str, session: &str, thread: &str, turn: &str, rid: &str, usage: &str) -> String {
    format!(
        "{{\"timestamp\":\"{}\",\"type\":\"token_usage_record\",\"payload\":{{\"session_id\":\"{}\",\"thread_id\":\"{}\",\"turn_id\":\"{}\",\"root_turn_id\":\"{}\",\"response_id\":\"{}\",\"usage\":{},\"turn_token_usage\":{{\"input_tokens\":444000000}},\"thread_token_usage\":{{\"input_tokens\":999000000000}}}}}}\n",
        ts, session, thread, turn, turn, rid, usage
    )
}

fn legacy(ts: &str, last: &str) -> String {
    format!(
        "{{\"timestamp\":\"{}\",\"type\":\"event_msg\",\"payload\":{{\"type\":\"token_count\",\"info\":{{\"last_token_usage\":{},\"total_token_usage\":{{\"input_tokens\":999900000000,\"output_tokens\":999900000000}}}}}}}}\n",
        ts, last
    )
}

fn fixture(name: &str) -> String {
    match name {
        "current_token_usage_record.jsonl" => {
            meta("2026-09-15T08:00:00.000Z", "sess-primary", "/Users/fmahia/Dev/Alpha")
                + &turn("2026-09-15T08:00:01.000Z", "turn-1", "gpt-6-astra")
                + "{\"timestamp\":\"2026-09-15T08:00:02.000Z\",\"type\":\"response_item\",\"payload\":{\"type\":\"message\"}}\n"
                + &record(
                    "2026-09-15T08:01:00.000Z",
                    "sess-primary",
                    "thread-1",
                    "turn-1",
                    "resp-1",
                    &usage(10_000, 8_000, 0, 1_000, 600),
                )
                + &legacy("2026-09-15T08:01:01.000Z", &usage(10_000, 8_000, 0, 1_000, 600))
                + &record(
                    "2026-09-15T08:02:00.000Z",
                    "sess-primary",
                    "thread-1",
                    "turn-1",
                    "resp-2",
                    &usage(20_000, 15_000, 0, 2_000, 1_200),
                )
        }
        "malformed_record.jsonl" => {
            meta("2026-09-17T11:00:00.000Z", "sess-mal", "/Users/fmahia/Dev/Mal")
                + "{\"timestamp\":\"2026-09-17T11:00:01.000Z\",\"type\":\"token_usage_record\",\"payload\":{\"response_id\":\"resp-mal-1\",\"usage\":{\"input_tokens\":\"not-a-number\"}}}\n"
                + "{\"timestamp\":\"2026-09-17T11:00:02.000Z\",\"type\":\"a_new_kind\",\"payload\":{\"about\":\"token_count\"}}\n"
                + &record(
                    "2026-09-17T11:00:03.000Z",
                    "sess-mal",
                    "thread-mal",
                    "turn-mal",
                    "resp-mal-2",
                    &usage(3_000, 0, 0, 300, 30),
                )
        }
        _ => panic!("no such fixture"),
    }
}

const HOME: &str = "/home/someone/.codex";

struct Home {
    /// Path below the home, content, and a time of change.
    files: Vec<(String, Vec<u8>, i64)>,
    clock: i64,
}

impl Home {
    fn new(layout: &[(&str, &str)]) -> Home {
        let mut home = Home { files: Vec::new(), clock: 0 };
        for (subdir, name) in layout {
            home.write(&format!("sessions/{}/rollout-{}", subdir, name), &fixture(name));
        }
        home
    }

    fn write(&mut self, path: &str, content: &str) {
        self.clock += 1;
        let bytes = content.as_bytes().to_vec();
        self.files.retain(|f| f.0 != path);
        self.files.push((path.to_string(), bytes, self.clock));
    }

    fn listing(&self) -> (Vec<SourceFile>, Vec<FileContent>) {
        let below = |dir: &str| -> Vec<SourceFile> {
            self.files
                .iter()
                .filter(|f| f.0.starts_with(dir))
                .map(|f| SourceFile {
                    path: format!("{}/{}", HOME, f.0),
                    archived: false,
                    size: f.1.len() as u64,
                    mtime_unix: Some(f.2),
                })
                .collect()
        };
        let files = discover(below("sessions/"), below("archived_sessions/"));
        let contents = files
            .iter()
            .map(|s| {
                let f = self.files.iter().find(|f| format!("{}/{}", HOME, f.0) == s.path).unwrap();
                FileContent::Whole(f.1.clone())
            })
            .collect();
        (files, contents)
    }
}

fn scan_home(home: &Home) -> ScanOutcome {
    let (files, contents) = home.listing();
    scan(HOME.to_string(), files, &contents)
}

fn rule(model: &str, alias: &[&str], own_write_rate: bool, long: bool, fast: bool) -> PricingRule {
    PricingRule {
        model: model.to_string(),
        aliases: alias.iter().map(|a| a.to_string()).collect(),
        effective_from: None,
        effective_until: None,
        has_cache_write_rate: own_write_rate,
        long_context: long,
        long_context_threshold: default_threshold(),
        has_fast_multiplier: fast,
    }
}

fn catalog(profile: &str, version: &str, own_write_rate: bool) -> PricingCatalog {
    PricingCatalog {
        catalog: format!("openai-{}", profile),
        profile: profile.to_string(),
        version: version.to_string(),
        currency: "USD".to_string(),
        unit: default_unit(),
        source_url: "https://example.org/pricing".to_string(),
        last_verified: "2026-09-23".to_string(),
        notes: Vec::new(),
        rules: vec![
            rule("gpt-6-astra", &[], own_write_rate, false, true),
            rule("gpt-5.6-sol", &[], own_write_rate, true, true),
            rule("gpt-5.6-luna", &[], own_write_rate, true, true),
            rule("gpt-5.4", &["codex-auto-review"], own_write_rate, true, false),
        ],
    }
}

fn engine() -> PricingEngine {
    PricingEngine {
        codex: catalog("codex", "2026-09-23", false),
        api: catalog("api", "2026-09-23", true),
    }
}

fn whole(text: &str) -> FileContent {
    FileContent::Whole(text.as_bytes().to_vec())
}

fn event() -> RawUsageEvent {
    RawUsageEvent {
        timestamp_utc: Some("2026-09-15T12:00:00Z".to_string()),
        session_id: Some("s".to_string()),
        thread_id: Some("t".to_string()),
        turn_id: Some("u".to_string()),
        root_turn_id: Some("r".to_string()),
        response_id: None,
        usage: TokenUsage {
            input_tokens: 1,
            cached_input_tokens: 2,
            cache_write_input_tokens: 3,
            output_tokens: 4,
            reasoning_output_tokens: 5,
            total_tokens: 6,
        },
        source_format: SourceFormat::TokenUsageRecord,
        source_ordinal: 7,
    }
}

#[test]
fn an_identity_is_the_digest_of_its_parts() {
    let mut bytes = b"s|t|u|2026-09-15T12:00:00Z|".to_vec();
    for n in [1u64, 2, 4, 7] {
        bytes.extend_from_slice(&n.to_le_bytes());
    }
    let expected = format!("{:x}", <sha2::Sha256 as sha2::Digest>::digest(&bytes));
    assert_eq!(event_uid(&event()), expected);
    let mut other = event();
    other.usage.cache_write_input_tokens = 9;
    other.response_id = Some("x".to_string());
    assert_eq!(event_uid(&other), expected, "only its parts make an identity");
    other.source_ordinal = 8;
    assert_ne!(event_uid(&other), expected);
    // The digest of no bytes at all but four bars and four zeros is known.
    let blank = RawUsageEvent {
        timestamp_utc: None,
        session_id: None,
        thread_id: None,
        turn_id: None,
        source_ordinal: 0,
        usage: TokenUsage::default(),
        ..event()
    };
    assert_eq!(event_uid(&blank).len(), 64);
}

#[test]
fn a_model_is_found_or_unknown() {
    let mut turns: TextMap<String> = TextMap::new();
    let mut roots: TextMap<RootModel> = TextMap::new();
    assert_eq!(resolve_model(&event(), &turns, &roots), (None, ModelConfidence::Unknown));
    roots.insert("r".to_string(), RootModel::Unique("m1".to_string()));
    assert_eq!(
        resolve_model(&event(), &turns, &roots),
        (Some("m1".to_string()), ModelConfidence::Inferred)
    );
    roots.insert("r".to_string(), RootModel::Ambiguous);
    assert_eq!(resolve_model(&event(), &turns, &roots), (None, ModelConfidence::Unknown));
    turns.insert("u".to_string(), "m2".to_string());
    assert_eq!(
        resolve_model(&event(), &turns, &roots),
        (Some("m2".to_string()), ModelConfidence::Exact)
    );
}

#[test]
fn a_root_with_two_models_stays_ambiguous() {
    let of = |turn: &str, model: &str| -> String {
        format!(
            "{{\"type\":\"turn_context\",\"payload\":{{\"turn_id\":\"{}\",\"model\":\"{}\",\"root_turn_id\":\"r\"}}}}\n",
            turn, model
        )
    };
    let res = parse_file(&whole(&(of("a", "m1") + &of("b", "m1"))));
    assert!(matches!(res.root_models.get("r"), Some(RootModel::Unique(m)) if m == "m1"));
    let res = parse_file(&whole(&(of("a", "m1") + &of("b", "m2") + &of("c", "m1"))));
    assert!(matches!(res.root_models.get("r"), Some(RootModel::Ambiguous)));
    assert_eq!(res.turn_models.get("c").unwrap(), "m1");
}

#[test]
fn a_last_line_without_its_end() {
    let full = fixture("current_token_usage_record.jsonl");
    let cut = full.len() - 10;
    let p = parse_file_from(&whole(&full[..cut]), 0, 0, false);
    assert_eq!(p.lines_processed, 5);
    assert_eq!(p.result.counters.lines_total, 5);
    assert!(p.end_offset < cut as u64, "the partial line is left to be read again");
    assert!(!p.pending_newline);
    assert!(p.result.errors.is_empty());

    let p = parse_file_from(&whole(&full[..full.len() - 1]), 0, 0, false);
    assert_eq!(p.lines_processed, 6);
    assert_eq!(p.end_offset, full.len() as u64 - 1);
    assert!(p.pending_newline);
    let q = parse_file_from(&whole(&full), p.end_offset, 6, true);
    assert_eq!(q.lines_processed, 0, "a line end is no line");
    assert_eq!(q.end_offset, full.len() as u64);
    assert!(!q.pending_newline);
    let q = parse_file_from(&whole(&full), p.end_offset, 6, false);
    assert_eq!(q.lines_processed, 1, "an empty line is one, where none is pending");
}

#[test]
fn reading_in_two_stretches_gives_the_same_events() {
    let full = fixture("current_token_usage_record.jsonl");
    let whole_events: Vec<(String, u64)> = parse_file(&whole(&full))
        .raw_calls
        .iter()
        .map(|e| (event_uid(e), e.source_ordinal))
        .collect();
    for cut in 0..full.len() {
        if !full.is_char_boundary(cut) {
            continue;
        }
        let a = parse_file_from(&whole(&full[..cut]), 0, 0, false);
        let b = parse_file_from(&whole(&full), a.end_offset, a.lines_processed, a.pending_newline);
        let session = a.result.meta.session_id.clone();
        let mut events: Vec<(String, u64)> = Vec::new();
        for e in a.result.raw_calls.iter() {
            events.push((event_uid(e), e.source_ordinal));
        }
        for e in b.result.raw_calls.iter() {
            let mut e = e.clone();
            if e.source_format == SourceFormat::LegacyTokenCount && e.session_id.is_none() {
                e.session_id = session.clone();
            }
            events.push((event_uid(&e), e.source_ordinal));
        }
        assert_eq!(events, whole_events, "cut at {}", cut);
        assert_eq!(b.end_offset, full.len() as u64);
    }
}

#[test]
fn lines_are_read_for_what_they_say() {
    let kind = |line: &str| -> String {
        let text = format!("{:?}", read_line(line));
        text.chars().take_while(|c| c.is_alphanumeric()).collect()
    };
    assert_eq!(kind(""), "Other");
    assert_eq!(kind("no json, and nothing of interest"), "Other");
    assert_eq!(kind("broken \"token_count\""), "Fault");
    assert_eq!(kind("{\"type\":\"session_meta\",\"payload\":{}}"), "Header");
    assert_eq!(kind("{\"type\":\"session_meta\",\"payload\":{\"id\":7}}"), "Header");
    assert_eq!(kind("{\"type\":\"turn_context\",\"payload\":{\"turn_id\":\"u\"}}"), "Turn");
    assert_eq!(kind("{\"type\":\"turn_context\",\"payload\":{}}"), "Other");
    assert_eq!(kind("{\"type\":\"token_usage_record\",\"payload\":{\"usage\":{}}}"), "Record");
    assert_eq!(kind("{\"type\":\"token_usage_record\",\"payload\":{}}"), "BadRecord");
    let msg = |payload: &str| format!("{{\"type\":\"event_msg\",\"payload\":{}}}", payload);
    assert_eq!(kind(&msg("{\"type\":\"token_count\"}")), "EmptyCount");
    assert_eq!(kind(&msg("{\"type\":\"token_count\",\"info\":null}")), "EmptyCount");
    assert_eq!(kind(&msg("{\"type\":\"token_count\",\"info\":{}}")), "Count");
    assert_eq!(kind(&msg("{\"type\":\"token_count\",\"info\":7}")), "BadCount");
    assert_eq!(kind(&msg("{\"type\":\"other\",\"text\":\"token_count\"}")), "Other");
    assert_eq!(
        kind(&msg(
            "{\"type\":\"thread_settings_applied\",\"thread_id\":\"t\",\"thread_settings\":{\"service_tier\":\"fast\"}}"
        )),
        "Settings"
    );
    assert_eq!(
        kind(&msg("{\"type\":\"thread_settings_applied\",\"thread_settings\":{}}")),
        "Other"
    );
}

#[test]
fn counts_of_a_record_are_read_exactly() {
    let line = "{\"timestamp\":null,\"type\":\"token_usage_record\",\"payload\":{\"session_id\":\"\\u00e9\",\"extra\":[1,2],\"usage\":{\"input_tokens\":18446744073709551615,\"total_tokens\":3}}}";
    match read_line(line) {
        LineContent::Record(r) => {
            assert_eq!(r.timestamp_utc, None);
            assert_eq!(r.session_id.as_deref(), Some("é"));
            assert_eq!(r.response_id, None);
            assert_eq!(r.usage.input_tokens, u64::MAX);
            assert_eq!(r.usage.cached_input_tokens, 0);
            assert_eq!(r.usage.total_tokens, 3);
        }
        _ => panic!("a record"),
    }
    // The fields may also be listed in their order.
    let listed = "[\"now\",\"token_usage_record\",[\"s\",null,\"u\",null,\"x\",[1,2,3,4,5,6]]]";
    match read_line(listed) {
        LineContent::Record(r) => {
            assert_eq!(r.timestamp_utc.as_deref(), Some("now"));
            assert_eq!(r.turn_id.as_deref(), Some("u"));
            assert_eq!(r.response_id.as_deref(), Some("x"));
            assert_eq!(r.usage.total_tokens, 6);
        }
        _ => panic!("a record"),
    }
    match read_line("{\"type\":\"token_usage_record\",\"payload\":{\"usage\":{\"input_tokens\":-1}}}") {
        LineContent::BadRecord(e) => assert!(e.contains("-1")),
        _ => panic!("a fault"),
    }
}

#[test]
fn bytes_that_are_no_text_are_replaced() {
    let mut bytes = b"{\"type\":\"session_meta\",\"payload\":{\"id\":\"a".to_vec();
    bytes.push(0xff);
    bytes.extend_from_slice(b"b\"}}\r\n");
    let res = parse_file(&FileContent::Whole(bytes));
    assert_eq!(res.meta.session_id.as_deref(), Some("a\u{fffd}b"));
    assert_eq!(res.counters.lines_json_errors, 0);
}

#[test]
fn reading_that_breaks_off_keeps_whole_lines() {
    let full = fixture("current_token_usage_record.jsonl");
    let bytes = full.as_bytes()[..full.len() - 3].to_vec();
    let p = parse_file_from(&FileContent::Broken(bytes, "read failed: x".to_string()), 0, 0, false);
    assert_eq!(p.lines_processed, 5);
    assert_eq!(p.result.errors, vec!["read failed: x".to_string()]);
    assert!(!p.result.open_failed);
}

#[test]
fn messages_name_their_lines() {
    let text = "{\"type\":\"token_usage_record\",\"payload\":{}}\n";
    let p = parse_file_from(&whole(text), 0, 40, false);
    assert_eq!(
        p.result.errors,
        vec!["line 40: malformed token_usage_record: missing field `usage`".to_string()]
    );
    assert_eq!(p.result.counters.lines_json_errors, 1);
}

#[test]
fn long_messages_are_cut() {
    let short = "a".repeat(240);
    assert_eq!(truncate_err(&short), short);
    let long = "a".repeat(241);
    assert_eq!(truncate_err(&long), short + "…");
    let split = "a".repeat(239) + "é";
    assert_eq!(truncate_err(&split), "a".repeat(239) + "…", "a letter is never cut in two");
}

#[test]
fn messages_are_kept_cut() {
    let text = format!(
        "{{\"type\":\"token_usage_record\",\"payload\":{{\"usage\":{{\"input_tokens\":\"{}\"}}}}}}\n",
        "x".repeat(400)
    );
    let p = parse_file_from(&whole(&text), 0, 0, false);
    let message = &p.result.errors[0];
    assert!(message.starts_with(
        "line 0: malformed token_usage_record: invalid type: string \"xxx"
    ));
    assert!(message.ends_with("x…"));
    assert_eq!(message.len(), 240 + "…".len());
}

fn fault(line: &str) -> String {
    match read_line(line) {
        LineContent::Fault(e) => e,
        other => panic!("{:?}", other),
    }
}

/// The frame as serde reads it.
struct SerdeFrame {
    timestamp: Option<String>,
    kind: String,
    payload: serde_json::Value,
}

struct FrameVisitor;

impl<'de> serde::de::Visitor<'de> for FrameVisitor {
    type Value = SerdeFrame;

    fn expecting(&self, f: &mut std::fmt::Formatter) -> std::fmt::Result {
        f.write_str("struct RolloutLine")
    }

    fn visit_seq<A: serde::de::SeqAccess<'de>>(self, mut seq: A) -> Result<SerdeFrame, A::Error> {
        let timestamp = seq.next_element()?.unwrap_or_default();
        let short = |n: usize| -> A::Error {
            serde::de::Error::invalid_length(n, &"struct RolloutLine with 3 elements")
        };
        let kind = seq.next_element()?.ok_or_else(|| short(1))?;
        let payload = seq.next_element()?.ok_or_else(|| short(2))?;
        Ok(SerdeFrame { timestamp, kind, payload })
    }

    fn visit_map<A: serde::de::MapAccess<'de>>(self, mut map: A) -> Result<SerdeFrame, A::Error> {
        let mut timestamp: Option<Option<String>> = None;
        let mut kind: Option<String> = None;
        let mut payload: Option<serde_json::Value> = None;
        let twice = |name: &'static str| -> A::Error { serde::de::Error::duplicate_field(name) };
        while let Some(key) = map.next_key::<String>()? {
            match key.as_str() {
                "timestamp" if timestamp.is_some() => return Err(twice("timestamp")),
                "timestamp" => timestamp = Some(map.next_value()?),
                "type" if kind.is_some() => return Err(twice("type")),
                "type" => kind = Some(map.next_value()?),
                "payload" if payload.is_some() => return Err(twice("payload")),
                "payload" => payload = Some(map.next_value()?),
                _ => {
                    map.next_value::<serde::de::IgnoredAny>()?;
                }
            }
        }
        let missing = |name: &'static str| -> A::Error { serde::de::Error::missing_field(name) };
        Ok(SerdeFrame {
            timestamp: timestamp.unwrap_or_default(),
            kind: kind.ok_or_else(|| missing("type"))?,
            payload: payload.ok_or_else(|| missing("payload"))?,
        })
    }
}

impl<'de> serde::Deserialize<'de> for SerdeFrame {
    fn deserialize<D: serde::Deserializer<'de>>(d: D) -> Result<SerdeFrame, D::Error> {
        d.deserialize_struct("RolloutLine", &["timestamp", "type", "payload"], FrameVisitor)
    }
}

#[test]
fn frames_are_read_as_serde_reads_them() {
    let deep = |n: usize| -> String {
        format!("{{\"type\":\"token_count\",\"payload\":{}{}}}", "[".repeat(n), "]".repeat(n))
    };
    let lines = vec![
        "{\"type\":\"token_count\",\"payload\":{}}".to_string(),
        "{\"timestamp\":\"t\",\"type\":\"a\",\"payload\":{\"x\":1,\"x\":2},\"é\":1e999}".to_string(),
        "{\"type\":\"a\",\"payload\":1e999}".to_string(),
        "{\"type\":\"a\",\"payload\":{},\"type\" :\"b\"}".to_string(),
        "{\"é\":1,\"payload\":{},\"pay\\u006coad\" : {}}".to_string(),
        " {\"timestamp\":null, \"timestamp\":null}".to_string(),
        " { \"é\":\"\\\"{\", \"type\":\"a\" } ".to_string(),
        "{\"payload\":[]}".to_string(),
        "{\"payload\":[],\"type\": 5 }".to_string(),
        "{\"payload\":[],\"type\": -5.5}".to_string(),
        "{\"payload\":[],\"type\": [5], \"x\":1}".to_string(),
        "{\"payload\":[],\"type\": {} }".to_string(),
        "{\"type\":null,\"payload\":1}".to_string(),
        "{\"timestamp\":true ,\"type\":\"a\",\"payload\":1}".to_string(),
        "{\"type\":\"a\",\"payload\":tru}".to_string(),
        "{\"type\":\"a\",\"payload\":1} x".to_string(),
        "{\"type\":\"a\"".to_string(),
        "[\"t\",\"a\",{}]".to_string(),
        "[]".to_string(),
        "[ \"a\" ]".to_string(),
        "[null,\"a\"]".to_string(),
        "[null,\"a\",1, 2]".to_string(),
        "[1,\"a\",1]".to_string(),
        "[null, {} ,1]".to_string(),
        "\"token_count\" ".to_string(),
        "5".to_string(),
        "null".to_string(),
        "true".to_string(),
        String::new(),
        deep(126),
        deep(127),
        deep(127).replace("}", ",5}"),
        deep(126).replace("}", ",\"type\":1}"),
        format!("[null,\"a\",{}{}]", "[".repeat(126), "]".repeat(126)),
        format!("[null,\"a\",{}{}]", "[".repeat(127), "]".repeat(127)),
        format!("[null,\"a\",{}", "[".repeat(200)),
        format!("{{\"payload\":{}", "[".repeat(200)),
        format!("{{\"payload\":1e999,\"x\":{}", "[".repeat(200)),
    ];
    for line in lines {
        read_alike(&line);
    }
}

#[test]
fn the_first_fault_of_a_frame_is_told() {
    let lines = [
        "{\"timestamp\":\"t\",\"type\":\"a\",\"payload\":{\"x\":[1,2e3]}}",
        " { \"é\" : [1 , {}], \"payload\":[true, null] , \"type\":\"\\u00e9\" } ",
        "{\"payload\":-1.5,\"timestamp\":null,\"type\":\"a\",\"z\":{\"type\":1}}",
        "{\"type\":5,\"timestamp\":5,\"payload\":1e999,\"type\":\"b\"}",
        "{\"type\":\"a\",\"type\"}",
        "[\"t\", \"a\" ,{\"x\":[]}] ",
        "[null,\"a\",[1,2],3]",
        "[ 5, {}, 1e999]",
        " \"a tuple of size 3 at line \" ",
        "-12.5e3",
        "true",
    ];
    let letters = ['{', '}', '[', ']', ',', ':', '"', '\\', ' ', '0', '-', 'n', 'x', 'é'];
    for line in lines {
        let all: Vec<char> = line.chars().collect();
        for at in 0..=all.len() {
            let head: String = all[..at].iter().collect();
            let rest: String = all[at..].iter().collect();
            read_alike(&head);
            read_alike(&rest);
            for c in letters {
                read_alike(&format!("{}{}{}", head, c, rest));
                if at < all.len() {
                    let behind: String = all[at + 1..].iter().collect();
                    read_alike(&format!("{}{}{}", head, c, behind));
                    read_alike(&format!("{}{}", head, behind));
                }
            }
        }
    }
}

fn read_alike(line: &str) {
    match (read_frame(line), serde_json::from_str::<SerdeFrame>(line)) {
        (Ok(a), Ok(b)) => {
            assert_eq!(a.timestamp, b.timestamp, "{}", line);
            assert_eq!(a.kind, b.kind, "{}", line);
            let payload: serde_json::Value = serde_json::from_str(&a.payload).unwrap();
            assert_eq!(payload, b.payload, "{}", line);
        }
        (Err(a), Err(b)) => assert_eq!(a, b.to_string(), "{}", line),
        (a, b) => panic!("{}: {} but {}", line, a.is_ok(), b.is_ok()),
    }
}

#[test]
fn a_field_of_the_frame_comes_once() {
    let line = "{\"type\":\"token_count\",\"payload\":{},\"type\":\"event_msg\"}";
    assert_eq!(fault(line), "duplicate field `type` at line 1 column 41");
    let line = "{\"type\":\"token_count\",\"payload\":1,\"pay\\u006coad\" : 2}";
    assert_eq!(fault(line), "duplicate field `payload` at line 1 column 49");
    let line = "{\"timestamp\":null,\"timestamp\":null,\"type\":\"token_count\",\"payload\":1}";
    assert_eq!(fault(line), "duplicate field `timestamp` at line 1 column 29");
    let line = "{\"other\":[{\"type\":1,\"type\":2}],\"other\":\",\\\"type\",\"type\":\"token_count\",\"payload\":{\"type\":1,\"type\":2}}";
    assert!(matches!(read_line(line), LineContent::Other), "only the fields of the frame count");
}

#[test]
fn a_payload_nests_one_level_down() {
    let line = |n: usize| -> String {
        format!(
            "{{\"type\":\"token_count\",\"payload\":{}{}}}",
            "[".repeat(n),
            "]".repeat(n)
        )
    };
    assert!(matches!(read_line(&line(126)), LineContent::Other));
    assert_eq!(fault(&line(127)), "recursion limit exceeded at line 1 column 159");
}

#[test]
fn faults_of_the_frame_tell_their_place() {
    assert_eq!(
        fault(" {\"type\":\"token_count\" }  "),
        "missing field `payload` at line 1 column 24"
    );
    assert_eq!(
        fault("{\"payload\":\"token_count\"}"),
        "missing field `type` at line 1 column 25"
    );
    assert_eq!(
        fault("{\"type\":\"token_count\",\"payload\":tru}"),
        "expected ident at line 1 column 36"
    );
    assert_eq!(
        fault("{\"payload\":\"token_count\",\"type\": 5 }"),
        "invalid type: integer `5`, expected a string at line 1 column 34"
    );
    assert_eq!(
        fault("{\"payload\":\"token_count\",\"type\": [5] }"),
        "invalid type: sequence, expected a string at line 1 column 33"
    );
    assert_eq!(
        fault("{\"timestamp\":true,\"type\":\"token_count\",\"payload\":1}"),
        "invalid type: boolean `true`, expected a string at line 1 column 17"
    );
    assert_eq!(
        fault("\"token_count\""),
        "invalid type: string \"token_count\", expected struct RolloutLine at line 1 column 13"
    );
}

#[test]
fn the_fault_that_stands_first_is_told() {
    assert_eq!(
        fault("{\"type\":5,\"payload\":\"token_count\",\"timestamp\":5}"),
        "invalid type: integer `5`, expected a string at line 1 column 9"
    );
    assert_eq!(
        fault("{\"type\":5,\"payload\":\"token_count\""),
        "invalid type: integer `5`, expected a string at line 1 column 9"
    );
    assert_eq!(
        fault("{\"payload\":1e999,\"type\":\"token_count\",\"type\":1}"),
        "number out of range at line 1 column 16"
    );
    assert_eq!(
        fault("{\"payload\":\"token_count\"} x"),
        "missing field `type` at line 1 column 25"
    );
    assert_eq!(
        fault("{\"type\":\"token_count\",\"payload\":1} x"),
        "trailing characters at line 1 column 36"
    );
    assert_eq!(
        fault("[null,5,\"token_count\""),
        "invalid type: integer `5`, expected a string at line 1 column 7"
    );
}

#[test]
fn blanks_behind_a_faulty_line_hold_its_place() {
    let told = |bytes: &str| -> Vec<String> {
        parse_file_from(&FileContent::Whole(bytes.as_bytes().to_vec()), 0, 0, false).result.errors
    };
    assert_eq!(
        told("{\"type\":\"token_count\" \t \r\n"),
        vec!["line 0: JSON error: EOF while parsing an object at line 1 column 24".to_string()]
    );
    assert_eq!(
        told("{\"type\":\"token_count\"\n"),
        vec!["line 0: JSON error: EOF while parsing an object at line 1 column 21".to_string()]
    );
}

#[test]
fn listed_parts_are_read_by_their_places() {
    let bad = |payload: &str| -> String {
        let line = format!("{{\"type\":\"token_usage_record\",\"payload\":{}}}", payload);
        match read_line(&line) {
            LineContent::BadRecord(e) => e,
            other => panic!("{:?}", other),
        }
    };
    assert_eq!(
        bad("[1,null,null,null,true,{},7,8]"),
        "invalid type: integer `1`, expected a string"
    );
    assert_eq!(
        bad("[null,null,null,null,true,{},7,8]"),
        "invalid type: boolean `true`, expected a string"
    );
    assert_eq!(
        bad("[null,null,null,null,null,[0,0,0,0,0,0,0,0]]"),
        "invalid length 8, expected fewer elements in array"
    );
    assert_eq!(
        bad("[null,null,null,null,null,[0,\"a\",-1],7]"),
        "invalid type: string \"a\", expected u64"
    );
    assert_eq!(
        bad("[null,null,null,null,null,{},7]"),
        "invalid length 7, expected fewer elements in array"
    );
    assert_eq!(
        bad("{\"usage\":{\"input_tokens\":true,\"cached_input_tokens\":false},\"turn_id\":[]}"),
        "invalid type: sequence, expected a string"
    );
    assert_eq!(
        bad("{\"usage\":{\"input_tokens\":true,\"cached_input_tokens\":false}}"),
        "invalid type: boolean `false`, expected u64"
    );
}

#[test]
fn a_frame_may_be_an_array() {
    assert!(matches!(
        read_line("[null,\"event_msg\",{\"type\":\"token_count\"}]"),
        LineContent::EmptyCount
    ));
    assert_eq!(
        fault("[\"token_count\"]"),
        "invalid length 1, expected struct RolloutLine with 3 elements at line 1 column 15"
    );
    assert_eq!(
        fault("[null,\"token_count\"]"),
        "invalid length 2, expected struct RolloutLine with 3 elements at line 1 column 20"
    );
    assert_eq!(
        fault("[null,\"token_count\",1, 2]"),
        "trailing characters at line 1 column 24"
    );
    assert_eq!(
        fault("[1,\"token_count\",1]"),
        "invalid type: integer `1`, expected a string at line 1 column 2"
    );
}

#[test]
fn faults_of_a_payload_tell_what_is_expected() {
    let bad = |payload: &str| -> String {
        let line = format!("{{\"type\":\"token_usage_record\",\"payload\":{}}}", payload);
        match read_line(&line) {
            LineContent::BadRecord(e) => e,
            other => panic!("{:?}", other),
        }
    };
    assert_eq!(bad("5"), "invalid type: integer `5`, expected struct TokenUsageRecordPayload");
    assert_eq!(
        bad("\"x\""),
        "invalid type: string \"x\", expected struct TokenUsageRecordPayload"
    );
    assert_eq!(bad("null"), "invalid type: null, expected struct TokenUsageRecordPayload");
    assert_eq!(bad("{\"usage\":true}"), "invalid type: boolean `true`, expected struct TokenUsage");
    assert_eq!(
        bad("[null]"),
        "invalid length 5, expected struct TokenUsageRecordPayload with 6 elements"
    );
    assert_eq!(
        bad("[null,null,null,null,null,{},1]"),
        "invalid length 7, expected fewer elements in array"
    );
}

#[test]
fn a_watcher_imports_once_per_burst() {
    let mut s = watch_start();
    let mut actions = Vec::new();
    for e in [
        WatchEvent::Quiet,
        WatchEvent::Change,
        WatchEvent::Change,
        WatchEvent::Quiet,
        WatchEvent::Quiet,
        WatchEvent::Change,
        WatchEvent::Closed,
        WatchEvent::Closed,
    ] {
        let (next, action) = watch_step(s, e);
        s = next;
        actions.push(action);
    }
    assert_eq!(
        actions,
        vec![
            WatchAction::Wait,
            WatchAction::Wait,
            WatchAction::Wait,
            WatchAction::Import,
            WatchAction::Wait,
            WatchAction::Wait,
            WatchAction::Import,
            WatchAction::Stop,
        ]
    );
}

#[test]
fn an_identity_is_64_hexadecimal_digits() {
    let uid = event_uid(&event());
    assert_eq!(uid.len(), 64);
    assert!(uid.chars().all(|c| matches!(c, '0'..='9' | 'a'..='f')));
}

#[test]
fn the_last_setting_that_applies_counts() {
    let at = |ts: &str, tier: &str| -> TierSetting {
        TierSetting {
            thread_id: "t".to_string(),
            applied_ts: ts.to_string(),
            service_tier: tier.to_string(),
        }
    };
    let settings = vec![at("2026-09-15T11", "fast"), at("2026-09-15T10", "flex"), at("2026-09-16", "fast")];
    assert_eq!(resolve_tier(&event(), &settings), ServiceTier::Standard);
    let mut e = event();
    e.timestamp_utc = None;
    assert_eq!(resolve_tier(&e, &settings), ServiceTier::Fast);
    e.thread_id = None;
    assert_eq!(resolve_tier(&e, &settings), ServiceTier::Unknown);
}

#[test]
fn words_are_written_and_read_back() {
    for t in [ServiceTier::Unknown, ServiceTier::Standard, ServiceTier::Fast] {
        assert_eq!(ServiceTier::parse(t.as_str()), t);
    }
    for w in ["default", "priority", "flex"] {
        assert_eq!(ServiceTier::parse(w), ServiceTier::Standard);
    }
    assert_eq!(ServiceTier::parse("FAST"), ServiceTier::Unknown);
    for f in [SourceFormat::TokenUsageRecord, SourceFormat::LegacyTokenCount] {
        assert_eq!(SourceFormat::parse(f.as_str()), f);
    }
    assert_eq!(ModelConfidence::Exact.as_str(), "exact");
}

#[test]
fn files_are_found_and_ordered() {
    let file = |path: &str| SourceFile {
        path: path.to_string(),
        archived: false,
        size: 0,
        mtime_unix: None,
    };
    let found = discover(
        vec![
            file("/h/sessions/b/rollout-1.jsonl"),
            file("/h/sessions/a-b/rollout-1.jsonl"),
            file("/h/sessions/a/rollout-1.jsonl"),
            file("/h/sessions/a/notes.jsonl"),
            file("/h/sessions/a/rollout-1.json"),
        ],
        vec![file("/h/archived_sessions/rollout-0.jsonl")],
    );
    let paths: Vec<&str> = found.iter().map(|f| f.path.as_str()).collect();
    assert_eq!(
        paths,
        vec![
            "/h/sessions/a/notes.jsonl",
            "/h/sessions/a/rollout-1.jsonl",
            "/h/sessions/a-b/rollout-1.jsonl",
            "/h/sessions/b/rollout-1.jsonl",
            "/h/archived_sessions/rollout-0.jsonl",
        ]
    );
    assert!(found[4].archived && !found[0].archived);
    assert!(is_log("a.jsonl") && is_log("dir/rollout-x.jsonl"));
    assert!(!is_log("dir/.jsonl"), "a name is more than its extension");
    assert!(!is_log("dir/rollout-x.jsonl/y"));
}

#[test]
fn the_home_is_chosen_in_order() {
    let some = |s: &str| Some(s.to_string());
    assert_eq!(codex_home(&some("/a"), &some("/b"), &some("/c")), "/a");
    assert_eq!(codex_home(&None, &some("/b"), &some("/c")), "/b");
    assert_eq!(codex_home(&None, &some(" \t"), &some("/c")), "/c/.codex");
    assert_eq!(codex_home(&None, &None, &some("/c/")), "/c/.codex");
    assert_eq!(codex_home(&None, &None, &None), ".codex");
    assert_eq!(relative_path("/h/sessions/x", "/h"), "sessions/x");
    assert_eq!(relative_path("/hh/x", "/h"), "/hh/x");
}

#[test]
fn threads_are_classified() {
    assert_eq!(classify(Some("guardian_review"), "", None), "auto_review");
    assert_eq!(classify(Some("user"), "{\"guardian\":1}", None), "auto_review");
    assert_eq!(classify(Some("subagent"), "", None), "subagent");
    assert_eq!(classify(Some("agent_created_thread"), "", None), "subagent");
    assert_eq!(classify(Some("user"), "", Some("codex-auto-review")), "main");
    assert_eq!(classify(Some("voice_chat"), "", None), "voice");
    assert_eq!(classify(Some("realtime_voice"), "", None), "voice");
    assert_eq!(classify(None, "", Some("codex-auto-review")), "auto_review");
    assert_eq!(classify(Some("else"), "", None), "other");
}

#[test]
fn rows_of_threads_are_made_whole() {
    let row = |title: &str, name: Option<&str>, project: Option<&str>, source: &str| StateRow {
        id: "t".to_string(),
        title: title.to_string(),
        name: name.map(|n| n.to_string()),
        model: None,
        cwd: Some("/x/Alpha".to_string()),
        project_id: project.map(|p| p.to_string()),
        thread_source: Some("subagent".to_string()),
        source: Some(source.to_string()),
        created_at_ms: None,
        updated_at_ms: None,
        tokens_used: None,
        rollout_path: None,
    };
    let spawn = "{\"subagent\":{\"thread_spawn\":{\"parent_thread_id\":\"p\"}}}";
    let rows = vec![
        row(" ", Some("named"), Some("1"), spawn),
        row("titled", None, Some("2"), "no json"),
        row("", Some(" "), None, "{\"subagent\":{\"thread_spawn\":{\"parent_thread_id\":7}}}"),
    ];
    let projects = vec![("1".to_string(), "Project".to_string())];
    let threads = read_threads(&rows, &Vec::new(), &projects);
    assert_eq!(threads[0].title.as_deref(), Some("named"));
    assert_eq!(threads[0].project_name.as_deref(), Some("Project"));
    assert_eq!(threads[0].parent_thread_id.as_deref(), Some("p"));
    assert_eq!(threads[1].title.as_deref(), Some("titled"));
    assert_eq!(threads[1].project_name.as_deref(), Some("Alpha"));
    assert_eq!(threads[1].parent_thread_id, None);
    assert_eq!(threads[2].title, None);
    assert_eq!(threads[2].parent_thread_id, None);
    let edges = vec![("t".to_string(), "q".to_string())];
    assert_eq!(read_threads(&rows, &edges, &projects)[0].parent_thread_id.as_deref(), Some("q"));
    assert_eq!(thread_activity_counts(&threads).get("subagent"), Some(&3));
}

fn sample_call(thread: &str, input: u64) -> InferenceCall {
    let meta = SessionMeta::default();
    let none: TextMap<String> = TextMap::new();
    let roots: TextMap<RootModel> = TextMap::new();
    let mut e = event();
    e.thread_id = Some(thread.to_string());
    e.usage.input_tokens = input;
    finalize_call(&e, &meta, &none, &none, &roots, &Vec::new(), "f", false)
}

#[test]
fn calls_take_what_is_known_of_their_file() {
    let mut meta = SessionMeta::default();
    let mut models: TextMap<String> = TextMap::new();
    let mut dirs: TextMap<String> = TextMap::new();
    let roots: TextMap<RootModel> = TextMap::new();
    models.insert("u".to_string(), "m".to_string());
    dirs.insert("u".to_string(), "/turn".to_string());
    let mut e = event();
    e.session_id = None;
    let c = finalize_call(&e, &meta, &models, &dirs, &roots, &Vec::new(), "f", true);
    assert_eq!(c.project_path.as_deref(), Some("/turn"));
    assert_eq!(c.session_id, None);
    assert_eq!(c.model_slug.as_deref(), Some("m"));
    assert_eq!(c.event_uid, event_uid(&e));
    assert!(c.archived);
    meta.cwd = Some("/file".to_string());
    meta.session_id = Some("file".to_string());
    let c = finalize_call(&e, &meta, &models, &dirs, &roots, &Vec::new(), "f", false);
    assert_eq!(c.project_path.as_deref(), Some("/file"));
    assert_eq!(c.session_id.as_deref(), Some("file"));
}

#[test]
fn threads_are_listed_by_input() {
    let mut calls = vec![sample_call("a", 5), sample_call("b", 9), sample_call("c", 5)];
    calls[1].thread_title = Some("Bee".to_string());
    calls[1].project_path = Some("/x/Alpha".to_string());
    calls[1].activity = Some("main".to_string());
    let rows = top_threads(&calls, &engine(), None);
    let ids: Vec<&str> = rows.iter().map(|r| r.thread_id.as_str()).collect();
    assert_eq!(ids, vec!["b", "a", "c"]);
    assert_eq!(rows[0].title, "Bee");
    assert_eq!(rows[0].project, "Alpha");
    assert_eq!(rows[0].activity, "main");
    assert_eq!(rows[1].activity, "unknown");
    assert_eq!(rows[0].bucket.usage.input_tokens, 9);
    assert_eq!(top_threads(&calls, &engine(), Some(1)).len(), 1);
    assert_eq!(top_threads(&calls, &engine(), Some(0)).len(), 0);
    assert_eq!(thread_label("id", ""), "id");
    assert_eq!(thread_label("id", &"é".repeat(50)), format!("id — {}", "é".repeat(48)));
}

#[test]
fn what_is_shown_beside_the_counts() {
    let some = |s: &str| Some(s.to_string());
    assert_eq!(period_note(&some("a"), &some("b")), "a → b");
    assert_eq!(period_note(&some("a"), &None), "depuis a");
    assert_eq!(period_note(&None, &some("b")), "jusqu'à b");
    assert_eq!(period_note(&None, &None), "tout l'historique");
    assert_eq!(edge_cursor(&some("ns-resize")), EdgeCursor::NsResize);
    assert_eq!(edge_cursor(&some("ew-resize")), EdgeCursor::EwResize);
    assert_eq!(edge_cursor(&some("nwse-resize")), EdgeCursor::NwseResize);
    assert_eq!(edge_cursor(&some("nesw-resize")), EdgeCursor::NeswResize);
    assert_eq!(edge_cursor(&some("else")), EdgeCursor::Default);
    assert_eq!(edge_cursor(&None), EdgeCursor::Default);
    assert_eq!(quiet_period(50), 200);
    assert_eq!(quiet_period(800), 800);
    let info = pricing_info(&engine());
    assert_eq!(info[0].profile, "codex");
    assert_eq!(info[1].models[3], "gpt-5.4");

    let home = Home::new(&[("2026/09/17", "malformed_record.jsonl")]);
    let out = scan_home(&home);
    let d = diagnostics(&out, "db".to_string(), 1, out.totals, TextMap::new(), -5, &engine());
    assert!(d.consistent);
    assert_eq!(d.parse_errors.len(), 1);
    assert_eq!(d.state_lifetime_tokens_used, 0);
    assert_eq!(d.db_input, 3_000);
    let d = diagnostics(&out, "db".to_string(), 0, TokenUsage::default(), TextMap::new(), 5, &engine());
    assert!(!d.consistent);
    assert_eq!(d.state_lifetime_tokens_used, 5);
    let errors: Vec<String> = (0..12).map(|i| format!("{}", i)).collect();
    assert_eq!(shown_errors(&errors).len(), 10);
}

#[test]
fn fields_are_quoted_where_they_must_be() {
    let mut calls = vec![sample_call("a", 5)];
    calls[0].thread_title = Some("one, \"two\"\nthree".to_string());
    let bytes = calls_csv(&calls, &engine(), &vec!["0.1".to_string()]);
    let text = String::from_utf8(bytes).unwrap();
    assert!(text.contains("\"one, \"\"two\"\"\nthree\""));
    for (title, written) in [("a\rb", ",\"a\rb\","), ("é; 'x' #", ",é; 'x' #,"), ("", ",,")] {
        calls[0].thread_title = Some(title.to_string());
        let bytes = calls_csv(&calls, &engine(), &vec!["0.1".to_string()]);
        assert!(String::from_utf8(bytes).unwrap().contains(written));
    }
    let mut reader = csv::Reader::from_reader(text.as_bytes());
    let row = reader.records().next().unwrap().unwrap();
    assert_eq!(&row[6], "one, \"two\"\nthree");
    assert_eq!(&row[11], "unknown");
    assert_eq!(&row[21], "tokenusagerecord");
    assert_eq!(&row[25], "0.1");
    assert_eq!(&row[27], "0");
}

#[test]
fn buckets_are_written_with_their_figures() {
    let calls = vec![sample_call("a", 5)];
    let table = by_thread(&calls, &engine());
    let mut figures: TextMap<BucketFigures> = TextMap::new();
    figures.insert(
        "a".to_string(),
        BucketFigures {
            cache_hit_percent: "40.00".to_string(),
            equivalent_cost: "0.000000".to_string(),
            cost_without_cache: "0.000000".to_string(),
            cache_savings: "0.000000".to_string(),
            cache_savings_percent: String::new(),
        },
    );
    let text = String::from_utf8(bucket_csv("by-thread", &table, &figures)).unwrap();
    let lines: Vec<&str> = text.lines().collect();
    assert_eq!(lines.len(), 2);
    assert_eq!(lines[1], "by-thread:a,1,5,2,3,0,4,5,40.00,0.000000,0.000000,0.000000,,6,0");
}

#[test]
fn a_map_keeps_its_keys_in_order() {
    let mut m: TextMap<u64> = TextMap::new();
    for k in ["b", "a", "é", "", "ab"] {
        m.insert(k.to_string(), k.len() as u64);
    }
    m.insert("a".to_string(), 9);
    m.remove("b");
    m.remove("nothing");
    let keys: Vec<&str> = (0..m.len()).map(|i| m.key_at(i).as_str()).collect();
    assert_eq!(keys, vec!["", "a", "ab", "é"]);
    assert_eq!(m.get("a"), Some(&9));
    assert!(m.contains_key("é") && !m.contains_key("b"));
}
