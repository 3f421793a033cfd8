use vstd::prelude::*;
use vstd::utf8::*;

use crate::text;
use crate::text_map::lemma_next_row;
use crate::text_map::ordered;
use crate::text_map::rows_map;
use crate::text_map::TextMap;

verus! {

/// Usage of one model call. `token_usage_record.payload.usage` is the unit of account.
/// Cached and cache-write tokens are part of the input, reasoning tokens part of the output.
#[derive(Debug, Clone, Copy, PartialEq, Eq, Structural)]
pub struct TokenUsage {
    pub input_tokens: u64,
    pub cached_input_tokens: u64,
    pub cache_write_input_tokens: u64,
    pub output_tokens: u64,
    pub reasoning_output_tokens: u64,
    pub total_tokens: u64,
}

impl DeepView for TokenUsage {
    type V = TokenUsage;

    open spec fn deep_view(&self) -> TokenUsage {
        *self
    }
}

/// No token at all.
pub open spec fn no_usage() -> TokenUsage {
    TokenUsage {
        input_tokens: 0,
        cached_input_tokens: 0,
        cache_write_input_tokens: 0,
        output_tokens: 0,
        reasoning_output_tokens: 0,
        total_tokens: 0,
    }
}

impl TokenUsage {
    /// Field by field sum, modulo 2^64.
    pub open spec fn plus(self, other: TokenUsage) -> TokenUsage {
        TokenUsage {
            input_tokens: self.input_tokens.wrapping_add(other.input_tokens),
            cached_input_tokens: self.cached_input_tokens.wrapping_add(other.cached_input_tokens),
            cache_write_input_tokens: self.cache_write_input_tokens.wrapping_add(
                other.cache_write_input_tokens,
            ),
            output_tokens: self.output_tokens.wrapping_add(other.output_tokens),
            reasoning_output_tokens: self.reasoning_output_tokens.wrapping_add(
                other.reasoning_output_tokens,
            ),
            total_tokens: self.total_tokens.wrapping_add(other.total_tokens),
        }
    }

    /// What is left of the input once the cached and the cache-write tokens are taken away.
    pub open spec fn spec_ordinary_input(self) -> int {
        let rest = self.input_tokens - self.cached_input_tokens;
        let rest = if rest < 0 { 0 } else { rest };
        let rest = rest - self.cache_write_input_tokens;
        if rest < 0 { 0 } else { rest }
    }

    /// Some part counts more than the whole that it belongs to.
    pub open spec fn spec_subset_violation(self) -> bool {
        ||| self.cached_input_tokens > self.input_tokens
        ||| self.cache_write_input_tokens > self.input_tokens
        ||| self.reasoning_output_tokens > self.output_tokens
    }

    /// Ordinary input: input less cached less cache-write, never below zero.
    pub fn ordinary_input(&self) -> (r: u64)
        ensures
            r == self.spec_ordinary_input(),
    {
        self.input_tokens.saturating_sub(self.cached_input_tokens).saturating_sub(
            self.cache_write_input_tokens,
        )
    }

    /// Diagnostic: tells whether a part exceeds its whole.
    pub fn subset_violation(&self) -> (r: bool)
        ensures
            r == self.spec_subset_violation(),
    {
        self.cached_input_tokens > self.input_tokens || self.cache_write_input_tokens
            > self.input_tokens || self.reasoning_output_tokens > self.output_tokens
    }

    /// Adds `other`, field by field, modulo 2^64.
    pub fn add(&mut self, other: &TokenUsage)
        ensures
            *final(self) == old(self).plus(*other),
    {
        self.input_tokens = self.input_tokens.wrapping_add(other.input_tokens);
        self.cached_input_tokens = self.cached_input_tokens.wrapping_add(other.cached_input_tokens);
        self.cache_write_input_tokens = self.cache_write_input_tokens.wrapping_add(
            other.cache_write_input_tokens,
        );
        self.output_tokens = self.output_tokens.wrapping_add(other.output_tokens);
        self.reasoning_output_tokens = self.reasoning_output_tokens.wrapping_add(
            other.reasoning_output_tokens,
        );
        self.total_tokens = self.total_tokens.wrapping_add(other.total_tokens);
    }
}

impl Default for TokenUsage {
    fn default() -> (r: Self)
        ensures
            r == no_usage(),
    {
        TokenUsage {
            input_tokens: 0,
            cached_input_tokens: 0,
            cache_write_input_tokens: 0,
            output_tokens: 0,
            reasoning_output_tokens: 0,
            total_tokens: 0,
        }
    }
}

/// Where the parts lie within their wholes and do not overlap, the input is its three parts.
pub proof fn law_input_is_its_parts(u: TokenUsage)
    requires
        u.cached_input_tokens + u.cache_write_input_tokens <= u.input_tokens,
    ensures
        u.spec_ordinary_input() + u.cached_input_tokens + u.cache_write_input_tokens
            == u.input_tokens,
{
}

/// Service tier of a call; never assumed to be standard.
#[derive(Debug, Clone, Copy, PartialEq, Eq, PartialOrd, Ord, Structural)]
pub enum ServiceTier {
    Unknown,
    Standard,
    Fast,
}

impl DeepView for ServiceTier {
    type V = ServiceTier;

    open spec fn deep_view(&self) -> ServiceTier {
        *self
    }
}

impl ServiceTier {
    pub open spec fn label(self) -> Seq<char> {
        match self {
            ServiceTier::Unknown => "unknown"@,
            ServiceTier::Standard => "standard"@,
            ServiceTier::Fast => "fast"@,
        }
    }

    pub open spec fn of_text(s: Seq<char>) -> ServiceTier {
        if s == "fast"@ {
            ServiceTier::Fast
        } else if s == "standard"@ || s == "default"@ || s == "priority"@ || s == "flex"@ {
            ServiceTier::Standard
        } else {
            ServiceTier::Unknown
        }
    }

    pub fn as_str(&self) -> (r: &'static str)
        ensures
            r@ == self.label(),
    {
        match self {
            ServiceTier::Unknown => "unknown",
            ServiceTier::Standard => "standard",
            ServiceTier::Fast => "fast",
        }
    }

    pub fn parse(s: &str) -> (r: Self)
        ensures
            r == ServiceTier::of_text(s@),
    {
        if text::same(s, "fast") {
            ServiceTier::Fast
        } else if text::same(s, "standard") || text::same(s, "default")
            || text::same(s, "priority") || text::same(s, "flex") {
            ServiceTier::Standard
        } else {
            ServiceTier::Unknown
        }
    }
}

/// A tier that was written down is read back.
pub proof fn law_tier_round_trip(t: ServiceTier)
    ensures
        ServiceTier::of_text(t.label()) == t,
{
    reveal_strlit("unknown");
    reveal_strlit("standard");
    reveal_strlit("fast");
    reveal_strlit("default");
    reveal_strlit("priority");
    reveal_strlit("flex");
    assert("unknown"@.len() == 7 && "standard"@.len() == 8 && "fast"@.len() == 4);
    assert("unknown"@[0] != "default"@[0]);
}

/// How sure the attribution of a model is.
#[derive(Debug, Clone, Copy, PartialEq, Eq, PartialOrd, Ord, Structural)]
pub enum ModelConfidence {
    Unknown,
    Inferred,
    Exact,
}

impl DeepView for ModelConfidence {
    type V = ModelConfidence;

    open spec fn deep_view(&self) -> ModelConfidence {
        *self
    }
}

impl ModelConfidence {
    pub open spec fn label(self) -> Seq<char> {
        match self {
            ModelConfidence::Exact => "exact"@,
            ModelConfidence::Inferred => "inferred"@,
            ModelConfidence::Unknown => "unknown"@,
        }
    }

    pub open spec fn of_text(s: Seq<char>) -> ModelConfidence {
        if s == "exact"@ {
            ModelConfidence::Exact
        } else if s == "inferred"@ {
            ModelConfidence::Inferred
        } else {
            ModelConfidence::Unknown
        }
    }

    pub fn as_str(&self) -> (r: &'static str)
        ensures
            r@ == self.label(),
    {
        match self {
            ModelConfidence::Exact => "exact",
            ModelConfidence::Inferred => "inferred",
            ModelConfidence::Unknown => "unknown",
        }
    }
}

/// A confidence that was written down is read back.
pub proof fn law_confidence_round_trip(c: ModelConfidence)
    ensures
        ModelConfidence::of_text(c.label()) == c,
{
    reveal_strlit("exact");
    reveal_strlit("inferred");
    reveal_strlit("unknown");
    assert("exact"@.len() == 5 && "inferred"@.len() == 8 && "unknown"@.len() == 7);
}

/// The method by which a call was recorded.
#[derive(Debug, Clone, Copy, PartialEq, Eq, Structural)]
pub enum SourceFormat {
    TokenUsageRecord,
    LegacyTokenCount,
}

impl DeepView for SourceFormat {
    type V = SourceFormat;

    open spec fn deep_view(&self) -> SourceFormat {
        *self
    }
}

impl SourceFormat {
    pub open spec fn label(self) -> Seq<char> {
        match self {
            SourceFormat::TokenUsageRecord => "token_usage_record"@,
            SourceFormat::LegacyTokenCount => "legacy_token_count"@,
        }
    }

    pub open spec fn of_text(s: Seq<char>) -> SourceFormat {
        if s == "legacy_token_count"@ {
            SourceFormat::LegacyTokenCount
        } else {
            SourceFormat::TokenUsageRecord
        }
    }

    pub fn as_str(&self) -> (r: &'static str)
        ensures
            r@ == self.label(),
    {
        match self {
            SourceFormat::TokenUsageRecord => "token_usage_record",
            SourceFormat::LegacyTokenCount => "legacy_token_count",
        }
    }

    pub fn parse(s: &str) -> (r: Self)
        ensures
            r == SourceFormat::of_text(s@),
    {
        if text::same(s, "legacy_token_count") {
            SourceFormat::LegacyTokenCount
        } else {
            SourceFormat::TokenUsageRecord
        }
    }
}

/// A source format that was written down is read back.
pub proof fn law_format_round_trip(f: SourceFormat)
    ensures
        SourceFormat::of_text(f.label()) == f,
{
    reveal_strlit("token_usage_record");
    reveal_strlit("legacy_token_count");
    assert("token_usage_record"@[0] != "legacy_token_count"@[0]);
}

/// A model call, deduplicated and normalised.
#[derive(Debug)]
pub struct InferenceCall {
    pub event_uid: String,
    pub response_id: Option<String>,
    pub timestamp_utc: Option<String>,
    pub session_id: Option<String>,
    pub thread_id: Option<String>,
    pub turn_id: Option<String>,
    pub root_turn_id: Option<String>,
    pub model_slug: Option<String>,
    pub model_confidence: ModelConfidence,
    pub service_tier: ServiceTier,
    pub project_path: Option<String>,
    pub activity: Option<String>,
    pub parent_thread_id: Option<String>,
    pub thread_title: Option<String>,
    pub usage: TokenUsage,
    pub source_format: SourceFormat,
    pub source_file: String,
    pub source_ordinal: u64,
    pub archived: bool,
}

/// What an [`InferenceCall`] says.
pub struct CallView {
    pub event_uid: Seq<char>,
    pub response_id: Option<Seq<char>>,
    pub timestamp_utc: Option<Seq<char>>,
    pub session_id: Option<Seq<char>>,
    pub thread_id: Option<Seq<char>>,
    pub turn_id: Option<Seq<char>>,
    pub root_turn_id: Option<Seq<char>>,
    pub model_slug: Option<Seq<char>>,
    pub model_confidence: ModelConfidence,
    pub service_tier: ServiceTier,
    pub project_path: Option<Seq<char>>,
    pub activity: Option<Seq<char>>,
    pub parent_thread_id: Option<Seq<char>>,
    pub thread_title: Option<Seq<char>>,
    pub usage: TokenUsage,
    pub source_format: SourceFormat,
    pub source_file: Seq<char>,
    pub source_ordinal: u64,
    pub archived: bool,
}

impl View for InferenceCall {
    type V = CallView;

    open spec fn view(&self) -> CallView {
        CallView {
            event_uid: self.event_uid@,
            response_id: self.response_id.deep_view(),
            timestamp_utc: self.timestamp_utc.deep_view(),
            session_id: self.session_id.deep_view(),
            thread_id: self.thread_id.deep_view(),
            turn_id: self.turn_id.deep_view(),
            root_turn_id: self.root_turn_id.deep_view(),
            model_slug: self.model_slug.deep_view(),
            model_confidence: self.model_confidence,
            service_tier: self.service_tier,
            project_path: self.project_path.deep_view(),
            activity: self.activity.deep_view(),
            parent_thread_id: self.parent_thread_id.deep_view(),
            thread_title: self.thread_title.deep_view(),
            usage: self.usage,
            source_format: self.source_format,
            source_file: self.source_file@,
            source_ordinal: self.source_ordinal,
            archived: self.archived,
        }
    }
}

impl DeepView for InferenceCall {
    type V = CallView;

    open spec fn deep_view(&self) -> CallView {
        self.view()
    }
}

/// A copy of an optional text.
pub fn copy_text(t: &Option<String>) -> (r: Option<String>)
    ensures
        r.deep_view() == t.deep_view(),
{
    match t {
        Some(s) => Some(s.clone()),
        None => None,
    }
}

impl Clone for InferenceCall {
    fn clone(&self) -> (r: Self)
        ensures
            r@ == self@,
    {
        InferenceCall {
            event_uid: self.event_uid.clone(),
            response_id: copy_text(&self.response_id),
            timestamp_utc: copy_text(&self.timestamp_utc),
            session_id: copy_text(&self.session_id),
            thread_id: copy_text(&self.thread_id),
            turn_id: copy_text(&self.turn_id),
            root_turn_id: copy_text(&self.root_turn_id),
            model_slug: copy_text(&self.model_slug),
            model_confidence: self.model_confidence,
            service_tier: self.service_tier,
            project_path: copy_text(&self.project_path),
            activity: copy_text(&self.activity),
            parent_thread_id: copy_text(&self.parent_thread_id),
            thread_title: copy_text(&self.thread_title),
            usage: self.usage,
            source_format: self.source_format,
            source_file: self.source_file.clone(),
            source_ordinal: self.source_ordinal,
            archived: self.archived,
        }
    }
}

/// The first ten bytes are a text with dashes where a date `YYYY-MM-DD` has them.
pub open spec fn is_dated(ts: Seq<char>) -> bool {
    let bytes = encode_utf8(ts);
    &&& bytes.len() >= 10
    &&& is_char_boundary(bytes, 10)
    &&& bytes[4] == 0x2d
    &&& bytes[7] == 0x2d
}

/// The day `YYYY-MM-DD` of a timestamp, or `unknown`.
pub open spec fn day_of(ts: Option<Seq<char>>) -> Seq<char> {
    match ts {
        Some(t) => if is_dated(t) {
            decode_utf8(encode_utf8(t).subrange(0, 10))
        } else {
            "unknown"@
        },
        None => "unknown"@,
    }
}

impl InferenceCall {
    /// UTC day (YYYY-MM-DD) of the record, or "unknown".
    pub fn day(&self) -> (r: &str)
        ensures
            r@ == day_of(self@.timestamp_utc),
    {
        match &self.timestamp_utc {
            Some(ts) => {
                let ts = ts.as_str();
                let bytes = ts.as_bytes();
                if bytes.len() >= 10 && bytes[4] == 0x2d && bytes[7] == 0x2d
                    && ts.is_char_boundary(10) {
                    let (day, rest) = ts.split_at(10);
                    proof {
                        encode_utf8_decode_utf8(day@);
                    }
                    day
                } else {
                    "unknown"
                }
            },
            None => "unknown",
        }
    }
}

/// Header of a session file.
#[derive(Debug)]
pub struct SessionMeta {
    pub session_id: Option<String>,
    pub cwd: Option<String>,
    pub originator: Option<String>,
    pub cli_version: Option<String>,
}

/// What a [`SessionMeta`] says.
pub struct MetaView {
    pub session_id: Option<Seq<char>>,
    pub cwd: Option<Seq<char>>,
    pub originator: Option<Seq<char>>,
    pub cli_version: Option<Seq<char>>,
}

pub open spec fn no_meta() -> MetaView {
    MetaView { session_id: None, cwd: None, originator: None, cli_version: None }
}

impl View for SessionMeta {
    type V = MetaView;

    open spec fn view(&self) -> MetaView {
        MetaView {
            session_id: self.session_id.deep_view(),
            cwd: self.cwd.deep_view(),
            originator: self.originator.deep_view(),
            cli_version: self.cli_version.deep_view(),
        }
    }
}

impl Default for SessionMeta {
    fn default() -> (r: Self)
        ensures
            r@ == no_meta(),
    {
        SessionMeta { session_id: None, cwd: None, originator: None, cli_version: None }
    }
}

impl Clone for SessionMeta {
    fn clone(&self) -> (r: Self)
        ensures
            r@ == self@,
    {
        SessionMeta {
            session_id: copy_text(&self.session_id),
            cwd: copy_text(&self.cwd),
            originator: copy_text(&self.originator),
            cli_version: copy_text(&self.cli_version),
        }
    }
}

/// A usage event as read from a file, before its model is known.
#[derive(Debug)]
pub struct RawUsageEvent {
    pub timestamp_utc: Option<String>,
    pub session_id: Option<String>,
    pub thread_id: Option<String>,
    pub turn_id: Option<String>,
    pub root_turn_id: Option<String>,
    pub response_id: Option<String>,
    pub usage: TokenUsage,
    pub source_format: SourceFormat,
    pub source_ordinal: u64,
}

/// What a [`RawUsageEvent`] says.
pub struct EventView {
    pub timestamp_utc: Option<Seq<char>>,
    pub session_id: Option<Seq<char>>,
    pub thread_id: Option<Seq<char>>,
    pub turn_id: Option<Seq<char>>,
    pub root_turn_id: Option<Seq<char>>,
    pub response_id: Option<Seq<char>>,
    pub usage: TokenUsage,
    pub source_format: SourceFormat,
    pub source_ordinal: u64,
}

impl View for RawUsageEvent {
    type V = EventView;

    open spec fn view(&self) -> EventView {
        EventView {
            timestamp_utc: self.timestamp_utc.deep_view(),
            session_id: self.session_id.deep_view(),
            thread_id: self.thread_id.deep_view(),
            turn_id: self.turn_id.deep_view(),
            root_turn_id: self.root_turn_id.deep_view(),
            response_id: self.response_id.deep_view(),
            usage: self.usage,
            source_format: self.source_format,
            source_ordinal: self.source_ordinal,
        }
    }
}

impl DeepView for RawUsageEvent {
    type V = EventView;

    open spec fn deep_view(&self) -> EventView {
        self.view()
    }
}

impl Clone for RawUsageEvent {
    fn clone(&self) -> (r: Self)
        ensures
            r@ == self@,
    {
        RawUsageEvent {
            timestamp_utc: copy_text(&self.timestamp_utc),
            session_id: copy_text(&self.session_id),
            thread_id: copy_text(&self.thread_id),
            turn_id: copy_text(&self.turn_id),
            root_turn_id: copy_text(&self.root_turn_id),
            response_id: copy_text(&self.response_id),
            usage: self.usage,
            source_format: self.source_format,
            source_ordinal: self.source_ordinal,
        }
    }
}

/// Counters of one file.
#[derive(Debug, Clone, Copy, PartialEq, Eq, Structural)]
pub struct FileCounters {
    pub lines_total: u64,
    pub lines_json_errors: u64,
    pub usage_records: u64,
    pub legacy_token_count_events: u64,
    pub legacy_null_info: u64,
    pub legacy_total_usage_present: u64,
    pub duplicates_ignored: u64,
    pub subset_violations: u64,
    pub records_without_response_id: u64,
}

pub open spec fn no_counts() -> FileCounters {
    FileCounters {
        lines_total: 0,
        lines_json_errors: 0,
        usage_records: 0,
        legacy_token_count_events: 0,
        legacy_null_info: 0,
        legacy_total_usage_present: 0,
        duplicates_ignored: 0,
        subset_violations: 0,
        records_without_response_id: 0,
    }
}

impl Default for FileCounters {
    fn default() -> (r: Self)
        ensures
            r == no_counts(),
    {
        FileCounters {
            lines_total: 0,
            lines_json_errors: 0,
            usage_records: 0,
            legacy_token_count_events: 0,
            legacy_null_info: 0,
            legacy_total_usage_present: 0,
            duplicates_ignored: 0,
            subset_violations: 0,
            records_without_response_id: 0,
        }
    }
}

/// The model that the turns of one root name: one and the same, or several.
#[derive(Debug)]
pub enum RootModel {
    Unique(String),
    Ambiguous,
}

/// What a [`RootModel`] says.
pub enum RootModelView {
    Unique(Seq<char>),
    Ambiguous,
}

impl View for RootModel {
    type V = RootModelView;

    open spec fn view(&self) -> RootModelView {
        match self {
            RootModel::Unique(m) => RootModelView::Unique(m@),
            RootModel::Ambiguous => RootModelView::Ambiguous,
        }
    }
}

impl DeepView for RootModel {
    type V = RootModelView;

    open spec fn deep_view(&self) -> RootModelView {
        self.view()
    }
}

impl Clone for RootModel {
    fn clone(&self) -> (r: Self)
        ensures
            r@ == self@,
    {
        match self {
            RootModel::Unique(m) => RootModel::Unique(m.clone()),
            RootModel::Ambiguous => RootModel::Ambiguous,
        }
    }
}

/// When a service tier was applied to a thread, as a file tells it.
#[derive(Debug)]
pub struct TierSetting {
    pub thread_id: String,
    pub applied_ts: String,
    pub service_tier: String,
}

/// What a [`TierSetting`] says.
pub struct TierSettingView {
    pub thread_id: Seq<char>,
    pub applied_ts: Seq<char>,
    pub service_tier: Seq<char>,
}

impl View for TierSetting {
    type V = TierSettingView;

    open spec fn view(&self) -> TierSettingView {
        TierSettingView {
            thread_id: self.thread_id@,
            applied_ts: self.applied_ts@,
            service_tier: self.service_tier@,
        }
    }
}

impl DeepView for TierSetting {
    type V = TierSettingView;

    open spec fn deep_view(&self) -> TierSettingView {
        self.view()
    }
}

/// What the lines of a file say.
pub struct FileParseResult {
    pub meta: SessionMeta,
    /// A header line was met; later ones are passed over.
    pub meta_seen: bool,
    pub open_failed: bool,
    pub raw_calls: Vec<RawUsageEvent>,
    pub turn_models: TextMap<String>,
    pub turn_cwd: TextMap<String>,
    /// The model of each root, where its turns agree (attribution "inferred").
    pub root_models: TextMap<RootModel>,
    /// In the order of the file.
    pub thread_settings: Vec<TierSetting>,
    pub counters: FileCounters,
    pub errors: Vec<String>,
    /// Sum of the legacy events, for the consistency check only.
    pub legacy_totals: TokenUsage,
    pub legacy_events: u64,
    pub primary_events: u64,
}

/// What a [`FileParseResult`] says.
#[verifier::ext_equal]
pub struct ResultView {
    pub meta: MetaView,
    pub meta_seen: bool,
    pub open_failed: bool,
    pub raw_calls: Seq<EventView>,
    pub turn_models: Map<Seq<char>, Seq<char>>,
    pub turn_cwd: Map<Seq<char>, Seq<char>>,
    pub root_models: Map<Seq<char>, RootModelView>,
    pub thread_settings: Seq<TierSettingView>,
    pub counters: FileCounters,
    pub errors: Seq<Seq<char>>,
    pub legacy_totals: TokenUsage,
    pub legacy_events: u64,
    pub primary_events: u64,
}

impl View for FileParseResult {
    type V = ResultView;

    open spec fn view(&self) -> ResultView {
        ResultView {
            meta: self.meta@,
            meta_seen: self.meta_seen,
            open_failed: self.open_failed,
            raw_calls: self.raw_calls.deep_view(),
            turn_models: self.turn_models@,
            turn_cwd: self.turn_cwd@,
            root_models: self.root_models@,
            thread_settings: self.thread_settings.deep_view(),
            counters: self.counters,
            errors: self.errors.deep_view(),
            legacy_totals: self.legacy_totals,
            legacy_events: self.legacy_events,
            primary_events: self.primary_events,
        }
    }
}

impl DeepView for FileParseResult {
    type V = ResultView;

    open spec fn deep_view(&self) -> ResultView {
        self.view()
    }
}

/// What no line at all says.
pub open spec fn no_result() -> ResultView {
    ResultView {
        meta: no_meta(),
        meta_seen: false,
        open_failed: false,
        raw_calls: Seq::empty(),
        turn_models: Map::empty(),
        turn_cwd: Map::empty(),
        root_models: Map::empty(),
        thread_settings: Seq::empty(),
        counters: no_counts(),
        errors: Seq::empty(),
        legacy_totals: no_usage(),
        legacy_events: 0,
        primary_events: 0,
    }
}

impl Default for FileParseResult {
    fn default() -> (r: Self)
        ensures
            r@ == no_result(),
    {
        let r = FileParseResult {
            meta: SessionMeta::default(),
            meta_seen: false,
            open_failed: false,
            raw_calls: Vec::new(),
            turn_models: TextMap::new(),
            turn_cwd: TextMap::new(),
            root_models: TextMap::new(),
            thread_settings: Vec::new(),
            counters: FileCounters::default(),
            errors: Vec::new(),
            legacy_totals: TokenUsage::default(),
            legacy_events: 0,
            primary_events: 0,
        };
        assert(r@ =~= no_result());
        r
    }
}

/// The usage of calls together, modulo 2^64.
pub open spec fn usage_sum(calls: Seq<CallView>) -> TokenUsage
    decreases calls.len(),
{
    if calls.len() == 0 {
        no_usage()
    } else {
        usage_sum(calls.drop_last()).plus(calls.last().usage)
    }
}

/// What one count of the calls comes to, without a limit.
pub open spec fn exact_sum(calls: Seq<CallView>, count: spec_fn(TokenUsage) -> u64) -> nat
    decreases calls.len(),
{
    if calls.len() == 0 {
        0
    } else {
        exact_sum(calls.drop_last(), count) + count(calls.last().usage) as nat
    }
}

/// Where a total fits in 64 bits, the sum of the calls is that total.
pub proof fn law_sum_is_exact(calls: Seq<CallView>)
    ensures
        ({
            let sum = usage_sum(calls);
            let input = exact_sum(calls, |u: TokenUsage| u.input_tokens);
            let cached = exact_sum(calls, |u: TokenUsage| u.cached_input_tokens);
            let cache_write = exact_sum(calls, |u: TokenUsage| u.cache_write_input_tokens);
            let output = exact_sum(calls, |u: TokenUsage| u.output_tokens);
            let reasoning = exact_sum(calls, |u: TokenUsage| u.reasoning_output_tokens);
            let total = exact_sum(calls, |u: TokenUsage| u.total_tokens);
            &&& input <= u64::MAX ==> sum.input_tokens == input
            &&& cached <= u64::MAX ==> sum.cached_input_tokens == cached
            &&& cache_write <= u64::MAX ==> sum.cache_write_input_tokens == cache_write
            &&& output <= u64::MAX ==> sum.output_tokens == output
            &&& reasoning <= u64::MAX ==> sum.reasoning_output_tokens == reasoning
            &&& total <= u64::MAX ==> sum.total_tokens == total
        }),
    decreases calls.len(),
{
    if calls.len() > 0 {
        law_sum_is_exact(calls.drop_last());
    }
}

/// What the lines before a checkpoint say about those behind it: the header, and the models and
/// directories of the turns.
pub struct FileEnrichment {
    pub meta: SessionMeta,
    pub turn_models: TextMap<String>,
    pub turn_cwd: TextMap<String>,
    pub root_models: TextMap<RootModel>,
}

/// What a [`FileEnrichment`] says.
#[verifier::ext_equal]
pub struct EnrichmentView {
    pub meta: MetaView,
    pub turn_models: Map<Seq<char>, Seq<char>>,
    pub turn_cwd: Map<Seq<char>, Seq<char>>,
    pub root_models: Map<Seq<char>, RootModelView>,
}

impl View for FileEnrichment {
    type V = EnrichmentView;

    open spec fn view(&self) -> EnrichmentView {
        EnrichmentView {
            meta: self.meta@,
            turn_models: self.turn_models@,
            turn_cwd: self.turn_cwd@,
            root_models: self.root_models@,
        }
    }
}

impl DeepView for FileEnrichment {
    type V = EnrichmentView;

    open spec fn deep_view(&self) -> EnrichmentView {
        self.view()
    }
}

/// Nothing is known.
pub open spec fn no_enrichment() -> EnrichmentView {
    EnrichmentView {
        meta: no_meta(),
        turn_models: Map::empty(),
        turn_cwd: Map::empty(),
        root_models: Map::empty(),
    }
}

impl Default for FileEnrichment {
    fn default() -> (r: Self)
        ensures
            r@ == no_enrichment(),
    {
        FileEnrichment {
            meta: SessionMeta::default(),
            turn_models: TextMap::new(),
            turn_cwd: TextMap::new(),
            root_models: TextMap::new(),
        }
    }
}

impl Clone for FileEnrichment {
    fn clone(&self) -> (r: Self)
        ensures
            r@ == self@,
    {
        FileEnrichment {
            meta: self.meta.clone(),
            turn_models: copy_texts(&self.turn_models),
            turn_cwd: copy_texts(&self.turn_cwd),
            root_models: copy_roots(&self.root_models),
        }
    }
}

/// What two stretches of a file say of the roots: a model only where all turns agree.
pub open spec fn merged_roots(
    a: Map<Seq<char>, RootModelView>,
    b: Map<Seq<char>, RootModelView>,
) -> Map<Seq<char>, RootModelView> {
    Map::new(
        |k: Seq<char>| a.contains_key(k) || b.contains_key(k),
        |k: Seq<char>|
            if !b.contains_key(k) {
                a[k]
            } else if !a.contains_key(k) || a[k] == b[k] {
                b[k]
            } else {
                RootModelView::Ambiguous
            },
    )
}

/// What is known once a further stretch of the file is read.
pub open spec fn enriched(prior: EnrichmentView, r: ResultView) -> EnrichmentView {
    EnrichmentView {
        meta: if r.meta.session_id is Some {
            r.meta
        } else {
            prior.meta
        },
        turn_models: prior.turn_models.union_prefer_right(r.turn_models),
        turn_cwd: prior.turn_cwd.union_prefer_right(r.turn_cwd),
        root_models: merged_roots(prior.root_models, r.root_models),
    }
}

/// Adds the rows of one table to another; where both have a row, the added one stays.
pub fn add_texts(to: &mut TextMap<String>, from: &TextMap<String>)
    ensures
        final(to)@ == old(to)@.union_prefer_right(from@),
{
    let ghost before = to@;
    let n: usize = from.len();
    let ghost rows = from.rows();
    let mut i: usize = 0;
    assert(to@ =~= before.union_prefer_right(rows_map(rows.take(0))));
    while i < n
        invariant
            n == rows.len(),
            rows == from.rows(),
            ordered(rows),
            i <= n,
            to@ == before.union_prefer_right(rows_map(rows.take(i as int))),
        decreases n - i,
    {
        proof {
            lemma_next_row(rows, i as int);
        }
        to.insert(from.key_at(i).clone(), from.value_at(i).clone());
        assert(to@ =~= before.union_prefer_right(rows_map(rows.take(i + 1))));
        i += 1;
    }
    assert(rows.take(n as int) =~= rows);
}

/// A copy of a table of texts.
pub fn copy_texts(from: &TextMap<String>) -> (r: TextMap<String>)
    ensures
        r@ == from@,
{
    let mut r: TextMap<String> = TextMap::new();
    add_texts(&mut r, from);
    assert(r@ =~= from@);
    r
}

/// Adds what a further stretch says of the roots.
pub fn add_roots(to: &mut TextMap<RootModel>, from: &TextMap<RootModel>)
    ensures
        final(to)@ == merged_roots(old(to)@, from@),
{
    let ghost before = to@;
    let n: usize = from.len();
    let ghost rows = from.rows();
    let mut i: usize = 0;
    assert(to@ =~= merged_roots(before, rows_map(rows.take(0))));
    while i < n
        invariant
            n == rows.len(),
            rows == from.rows(),
            ordered(rows),
            i <= n,
            to@ == merged_roots(before, rows_map(rows.take(i as int))),
        decreases n - i,
    {
        proof {
            lemma_next_row(rows, i as int);
        }
        let key = from.key_at(i).clone();
        let added = from.value_at(i).clone();
        let agrees = match (to.get(key.as_str()), &added) {
            (Some(RootModel::Unique(a)), RootModel::Unique(b)) => text::same(
                a.as_str(),
                b.as_str(),
            ),
            (Some(RootModel::Ambiguous), RootModel::Ambiguous) => true,
            (Some(_), _) => false,
            (None, _) => true,
        };
        if agrees {
            to.insert(key, added);
        } else {
            to.insert(key, RootModel::Ambiguous);
        }
        assert(to@ =~= merged_roots(before, rows_map(rows.take(i + 1))));
        i += 1;
    }
    assert(rows.take(n as int) =~= rows);
}

/// A copy of a table of roots.
pub fn copy_roots(from: &TextMap<RootModel>) -> (r: TextMap<RootModel>)
    ensures
        r@ == from@,
{
    let mut r: TextMap<RootModel> = TextMap::new();
    add_roots(&mut r, from);
    assert(r@ =~= from@);
    r
}

impl FileEnrichment {
    /// Takes in what a further stretch of the file says.
    pub fn take_segment(&mut self, r: &FileParseResult)
        ensures
            final(self)@ == enriched(old(self)@, r@),
    {
        if r.meta.session_id.is_some() {
            self.meta = r.meta.clone();
        }
        add_texts(&mut self.turn_models, &r.turn_models);
        add_texts(&mut self.turn_cwd, &r.turn_cwd);
        add_roots(&mut self.root_models, &r.root_models);
    }
}

} // verus!
