//! What one line of a log file says.

use vstd::prelude::*;

use crate::frame::frame_of;
use crate::frame::read_frame;
use crate::frame::Frame;
use crate::frame::FrameView;
use crate::json;
use crate::json::any_member;
use crate::json::count_or_zero;
use crate::json::fault_in;
use crate::json::is_null;
use crate::json::missing_part;
use crate::json::optional_text;
use crate::json::parts_of;
use crate::json::required_text;
use crate::json::string_member;
use crate::json::Parts;
use crate::json::PartsView;
use crate::model::MetaView;
use crate::model::SessionMeta;
use crate::model::TierSetting;
use crate::model::TierSettingView;
use crate::model::TokenUsage;
use crate::outside::json_elements;
use crate::outside::json_members;
use crate::text;
use crate::text::has_part;
use crate::text::told;

verus! {

/// A usage record as its line gives it.
#[derive(Debug)]
pub struct UsageRecord {
    pub timestamp_utc: Option<String>,
    pub session_id: Option<String>,
    pub thread_id: Option<String>,
    pub turn_id: Option<String>,
    pub root_turn_id: Option<String>,
    pub response_id: Option<String>,
    pub usage: TokenUsage,
}

/// What a [`UsageRecord`] says.
pub struct RecordView {
    pub timestamp_utc: Option<Seq<char>>,
    pub session_id: Option<Seq<char>>,
    pub thread_id: Option<Seq<char>>,
    pub turn_id: Option<Seq<char>>,
    pub root_turn_id: Option<Seq<char>>,
    pub response_id: Option<Seq<char>>,
    pub usage: TokenUsage,
}

impl DeepView for UsageRecord {
    type V = RecordView;

    open spec fn deep_view(&self) -> RecordView {
        RecordView {
            timestamp_utc: self.timestamp_utc.deep_view(),
            session_id: self.session_id.deep_view(),
            thread_id: self.thread_id.deep_view(),
            turn_id: self.turn_id.deep_view(),
            root_turn_id: self.root_turn_id.deep_view(),
            response_id: self.response_id.deep_view(),
            usage: self.usage,
        }
    }
}

/// The context of a turn: which model answers it, and where.
#[derive(Debug)]
pub struct TurnContext {
    pub turn_id: String,
    pub model: Option<String>,
    pub cwd: Option<String>,
    pub root_turn_id: Option<String>,
}

/// What a [`TurnContext`] says.
pub struct TurnView {
    pub turn_id: Seq<char>,
    pub model: Option<Seq<char>>,
    pub cwd: Option<Seq<char>>,
    pub root_turn_id: Option<Seq<char>>,
}

impl DeepView for TurnContext {
    type V = TurnView;

    open spec fn deep_view(&self) -> TurnView {
        TurnView {
            turn_id: self.turn_id@,
            model: self.model.deep_view(),
            cwd: self.cwd.deep_view(),
            root_turn_id: self.root_turn_id.deep_view(),
        }
    }
}

/// A legacy count: the usage of the last call, and whether a running total stands beside it.
#[derive(Debug)]
pub struct LegacyCount {
    pub timestamp_utc: Option<String>,
    pub last: Option<TokenUsage>,
    pub total_present: bool,
}

/// What a [`LegacyCount`] says.
pub struct CountView {
    pub timestamp_utc: Option<Seq<char>>,
    pub last: Option<TokenUsage>,
    pub total_present: bool,
}

impl DeepView for LegacyCount {
    type V = CountView;

    open spec fn deep_view(&self) -> CountView {
        CountView {
            timestamp_utc: self.timestamp_utc.deep_view(),
            last: self.last,
            total_present: self.total_present,
        }
    }
}

/// What a line says.
#[derive(Debug)]
pub enum LineContent {
    /// Nothing that is counted.
    Other,
    /// A line of interest that cannot be read.
    Fault(String),
    /// The header of the session; without fields where they cannot be read.
    Header(Option<SessionMeta>),
    Turn(TurnContext),
    Record(UsageRecord),
    BadRecord(String),
    /// A legacy count without information.
    EmptyCount,
    Count(LegacyCount),
    BadCount(String),
    Settings(TierSetting),
}

/// What a [`LineContent`] says.
pub enum ContentView {
    Other,
    Fault(Seq<char>),
    Header(Option<MetaView>),
    Turn(TurnView),
    Record(RecordView),
    BadRecord(Seq<char>),
    EmptyCount,
    Count(CountView),
    BadCount(Seq<char>),
    Settings(TierSettingView),
}

impl View for LineContent {
    type V = ContentView;

    open spec fn view(&self) -> ContentView {
        match self {
            LineContent::Other => ContentView::Other,
            LineContent::Fault(e) => ContentView::Fault(e@),
            LineContent::Header(m) => ContentView::Header(
                match m {
                    Some(m) => Some(m@),
                    None => None,
                },
            ),
            LineContent::Turn(t) => ContentView::Turn(t.deep_view()),
            LineContent::Record(r) => ContentView::Record(r.deep_view()),
            LineContent::BadRecord(e) => ContentView::BadRecord(e@),
            LineContent::EmptyCount => ContentView::EmptyCount,
            LineContent::Count(c) => ContentView::Count(c.deep_view()),
            LineContent::BadCount(e) => ContentView::BadCount(e@),
            LineContent::Settings(s) => ContentView::Settings(s@),
        }
    }
}

/// Token counts written as JSON; a count that is absent is zero.
pub open spec fn usage_in(value: Seq<char>) -> Result<TokenUsage, Seq<char>> {
    match parts_of(value, "TokenUsage"@) {
        Err(e) => Err(e),
        Ok(p) => {
            let input_tokens = count_or_zero(p.part("input_tokens"@, 0));
            let cached_input_tokens = count_or_zero(p.part("cached_input_tokens"@, 1));
            let cache_write_input_tokens = count_or_zero(p.part("cache_write_input_tokens"@, 2));
            let output_tokens = count_or_zero(p.part("output_tokens"@, 3));
            let reasoning_output_tokens = count_or_zero(p.part("reasoning_output_tokens"@, 4));
            let total_tokens = count_or_zero(p.part("total_tokens"@, 5));
            let at = seq![
                fault_in(input_tokens),
                fault_in(cached_input_tokens),
                fault_in(cache_write_input_tokens),
                fault_in(output_tokens),
                fault_in(reasoning_output_tokens),
                fault_in(total_tokens),
            ];
            match p.fault(at, seq![2usize, 1, 0, 3, 4, 5]) {
                Some(e) => Err(e),
                None => Ok(
                    TokenUsage {
                        input_tokens: input_tokens->Ok_0,
                        cached_input_tokens: cached_input_tokens->Ok_0,
                        cache_write_input_tokens: cache_write_input_tokens->Ok_0,
                        output_tokens: output_tokens->Ok_0,
                        reasoning_output_tokens: reasoning_output_tokens->Ok_0,
                        total_tokens: total_tokens->Ok_0,
                    },
                ),
            }
        },
    }
}

/// Token counts, or `null`, or nothing.
pub open spec fn optional_usage(part: Option<Seq<char>>) -> Result<Option<TokenUsage>, Seq<char>> {
    match part {
        Some(value) => if is_null(value) {
            Ok(None)
        } else {
            match usage_in(value) {
                Ok(u) => Ok(Some(u)),
                Err(e) => Err(e),
            }
        },
        None => Ok(None),
    }
}

/// The usage that a record must have.
pub open spec fn required_usage(p: PartsView) -> Result<TokenUsage, Seq<char>> {
    match p.part("usage"@, 5) {
        Some(value) => usage_in(value),
        None => Err(missing_part(p, "usage"@, 5, 6, "TokenUsageRecordPayload"@)),
    }
}

/// The usage record that a payload holds. The running totals of the turn and of the thread that
/// stand beside it are never read.
pub open spec fn record_in(timestamp_utc: Option<Seq<char>>, payload: Seq<char>) -> Result<
    RecordView,
    Seq<char>,
> {
    match parts_of(payload, "TokenUsageRecordPayload"@) {
        Err(e) => Err(e),
        Ok(p) => {
            let session_id = optional_text(p.part("session_id"@, 0));
            let thread_id = optional_text(p.part("thread_id"@, 1));
            let turn_id = optional_text(p.part("turn_id"@, 2));
            let root_turn_id = optional_text(p.part("root_turn_id"@, 3));
            let response_id = optional_text(p.part("response_id"@, 4));
            let usage = required_usage(p);
            let at = seq![
                fault_in(session_id),
                fault_in(thread_id),
                fault_in(turn_id),
                fault_in(root_turn_id),
                fault_in(response_id),
                fault_in(usage),
            ];
            match p.fault(at, seq![4usize, 3, 0, 1, 2, 5]) {
                Some(e) => Err(e),
                None => Ok(
                    RecordView {
                        timestamp_utc,
                        session_id: session_id->Ok_0,
                        thread_id: thread_id->Ok_0,
                        turn_id: turn_id->Ok_0,
                        root_turn_id: root_turn_id->Ok_0,
                        response_id: response_id->Ok_0,
                        usage: usage->Ok_0,
                    },
                ),
            }
        },
    }
}

/// The header that a payload holds.
pub open spec fn header_in(payload: Seq<char>) -> Result<MetaView, Seq<char>> {
    match parts_of(payload, "SessionMetaPayload"@) {
        Err(e) => Err(e),
        Ok(p) => {
            let session_id = optional_text(p.part("id"@, 0));
            let cwd = optional_text(p.part("cwd"@, 1));
            let originator = optional_text(p.part("originator"@, 2));
            let cli_version = optional_text(p.part("cli_version"@, 3));
            let at = seq![
                fault_in(session_id),
                fault_in(cwd),
                fault_in(originator),
                fault_in(cli_version),
            ];
            match p.fault(at, seq![3usize, 1, 0, 2]) {
                Some(e) => Err(e),
                None => Ok(
                    MetaView {
                        session_id: session_id->Ok_0,
                        cwd: cwd->Ok_0,
                        originator: originator->Ok_0,
                        cli_version: cli_version->Ok_0,
                    },
                ),
            }
        },
    }
}

/// The context of a turn that a payload holds.
pub open spec fn turn_in(payload: Seq<char>) -> Result<TurnView, Seq<char>> {
    match parts_of(payload, "TurnContextPayload"@) {
        Err(e) => Err(e),
        Ok(p) => {
            let turn_id = required_text(
                p.part("turn_id"@, 0),
                missing_part(p, "turn_id"@, 0, 4, "TurnContextPayload"@),
            );
            let model = optional_text(p.part("model"@, 1));
            let cwd = optional_text(p.part("cwd"@, 2));
            let root_turn_id = optional_text(p.part("root_turn_id"@, 3));
            let at = seq![
                fault_in(turn_id),
                fault_in(model),
                fault_in(cwd),
                fault_in(root_turn_id),
            ];
            match p.fault(at, seq![2usize, 1, 3, 0]) {
                Some(e) => Err(e),
                None => Ok(
                    TurnView {
                        turn_id: turn_id->Ok_0,
                        model: model->Ok_0,
                        cwd: cwd->Ok_0,
                        root_turn_id: root_turn_id->Ok_0,
                    },
                ),
            }
        },
    }
}

/// The legacy count that the information of an event holds. Only the usage of the last call
/// counts; of the running total only its presence is told.
pub open spec fn count_in(timestamp_utc: Option<Seq<char>>, info: Seq<char>) -> Result<
    CountView,
    Seq<char>,
> {
    match parts_of(info, "LegacyInfo"@) {
        Err(e) => Err(e),
        Ok(p) => {
            let last = optional_usage(p.part("last_token_usage"@, 0));
            let total = optional_usage(p.part("total_token_usage"@, 1));
            let at = seq![
                fault_in(last),
                fault_in(total),
            ];
            match p.fault(at, seq![0usize, 1]) {
                Some(e) => Err(e),
                None => Ok(
                    CountView {
                        timestamp_utc,
                        last: last->Ok_0,
                        total_present: total->Ok_0 is Some,
                    },
                ),
            }
        },
    }
}

/// An absent text told as the empty one.
pub open spec fn or_empty(t: Option<Seq<char>>) -> Seq<char> {
    match t {
        Some(s) => s,
        None => Seq::empty(),
    }
}

/// What an event message says: a legacy count, the settings of a thread, or nothing.
pub open spec fn event_content(f: FrameView) -> ContentView {
    let kind = string_member(f.payload, "type"@);
    if kind == Some("token_count"@) {
        match any_member(f.payload, "info"@) {
            Some(info) => if is_null(info) {
                ContentView::EmptyCount
            } else {
                match count_in(f.timestamp, info) {
                    Ok(c) => ContentView::Count(c),
                    Err(e) => ContentView::BadCount(e),
                }
            },
            None => ContentView::EmptyCount,
        }
    } else if kind == Some("thread_settings_applied"@) {
        match (
            string_member(f.payload, "thread_id"@),
            any_member(f.payload, "thread_settings"@),
        ) {
            (Some(thread_id), Some(settings)) => match string_member(settings, "service_tier"@) {
                Some(service_tier) => ContentView::Settings(
                    TierSettingView {
                        thread_id,
                        applied_ts: or_empty(f.timestamp),
                        service_tier,
                    },
                ),
                None => ContentView::Other,
            },
            _ => ContentView::Other,
        }
    } else {
        ContentView::Other
    }
}

/// The line names something that is counted.
pub open spec fn is_of_interest(line: Seq<char>) -> bool {
    ||| has_part(line, "\"token_usage_record\""@)
    ||| has_part(line, "\"turn_context\""@)
    ||| has_part(line, "\"token_count\""@)
    ||| has_part(line, "\"session_meta\""@)
    ||| has_part(line, "\"thread_settings_applied\""@)
}

/// What a line in its frame says.
pub open spec fn framed_content(f: FrameView) -> ContentView {
    if f.kind == "session_meta"@ {
        ContentView::Header(
            match header_in(f.payload) {
                Ok(m) => Some(m),
                Err(e) => None,
            },
        )
    } else if f.kind == "turn_context"@ {
        match turn_in(f.payload) {
            Ok(t) => ContentView::Turn(t),
            Err(e) => ContentView::Other,
        }
    } else if f.kind == "token_usage_record"@ {
        match record_in(f.timestamp, f.payload) {
            Ok(r) => ContentView::Record(r),
            Err(e) => ContentView::BadRecord(e),
        }
    } else if f.kind == "event_msg"@ {
        event_content(f)
    } else {
        ContentView::Other
    }
}

/// What a line says. A line that names nothing of interest is not even read as JSON.
#[verifier::opaque]
pub open spec fn content_of(line: Seq<char>) -> ContentView {
    if !is_of_interest(line) {
        ContentView::Other
    } else {
        match frame_of(line) {
            Ok(f) => framed_content(f),
            Err(e) => ContentView::Fault(e),
        }
    }
}

fn read_usage(value: &str) -> (r: Result<TokenUsage, String>)
    ensures
        told(r) == usage_in(value@),
{
    let p = match json::read_parts(value, "TokenUsage") {
        Err(e) => return Err(e),
        Ok(p) => p,
    };
    let input_tokens = json::read_count_or_zero(p.part("input_tokens", 0));
    let cached_input_tokens = json::read_count_or_zero(p.part("cached_input_tokens", 1));
    let cache_write_input_tokens = json::read_count_or_zero(p.part("cache_write_input_tokens", 2));
    let output_tokens = json::read_count_or_zero(p.part("output_tokens", 3));
    let reasoning_output_tokens = json::read_count_or_zero(p.part("reasoning_output_tokens", 4));
    let total_tokens = json::read_count_or_zero(p.part("total_tokens", 5));
    let at = vec![
        json::fault_of(&input_tokens),
        json::fault_of(&cached_input_tokens),
        json::fault_of(&cache_write_input_tokens),
        json::fault_of(&output_tokens),
        json::fault_of(&reasoning_output_tokens),
        json::fault_of(&total_tokens),
    ];
    let by_name: Vec<usize> = vec![2, 1, 0, 3, 4, 5];
    assert(at.deep_view() =~= seq![
        fault_in(told(input_tokens)),
        fault_in(told(cached_input_tokens)),
        fault_in(told(cache_write_input_tokens)),
        fault_in(told(output_tokens)),
        fault_in(told(reasoning_output_tokens)),
        fault_in(told(total_tokens)),
    ]);
    assert(by_name@ =~= seq![2usize, 1, 0, 3, 4, 5]);
    if let Some(e) = p.find_fault(&at, &by_name) {
        return Err(e);
    }
    assert(by_name@[0] == 2 && by_name@[1] == 1 && by_name@[2] == 0 && by_name@[3] == 3 && by_name@[4] == 4 && by_name@[5] == 5);
    let input_tokens: u64 = match input_tokens {
        Err(e) => return Err(e),
        Ok(v) => v,
    };
    let cached_input_tokens: u64 = match cached_input_tokens {
        Err(e) => return Err(e),
        Ok(v) => v,
    };
    let cache_write_input_tokens: u64 = match cache_write_input_tokens {
        Err(e) => return Err(e),
        Ok(v) => v,
    };
    let output_tokens: u64 = match output_tokens {
        Err(e) => return Err(e),
        Ok(v) => v,
    };
    let reasoning_output_tokens: u64 = match reasoning_output_tokens {
        Err(e) => return Err(e),
        Ok(v) => v,
    };
    let total_tokens: u64 = match total_tokens {
        Err(e) => return Err(e),
        Ok(v) => v,
    };
    Ok(
        TokenUsage {
            input_tokens,
            cached_input_tokens,
            cache_write_input_tokens,
            output_tokens,
            reasoning_output_tokens,
            total_tokens,
        },
    )
}

fn read_optional_usage(part: Option<String>) -> (r: Result<Option<TokenUsage>, String>)
    ensures
        told(r) == optional_usage(part.deep_view()),
{
    match part {
        Some(value) => {
            if json::reads_null(value.as_str()) {
                Ok(None)
            } else {
                match read_usage(value.as_str()) {
                    Ok(u) => Ok(Some(u)),
                    Err(e) => Err(e),
                }
            }
        },
        None => Ok(None),
    }
}

fn read_required_usage(p: &Parts) -> (r: Result<TokenUsage, String>)
    ensures
        told(r) == required_usage(p.deep_view()),
{
    match p.part("usage", 5) {
        Some(value) => read_usage(value.as_str()),
        None => Err(json::tell_missing(p, "usage", 5, 6, "TokenUsageRecordPayload")),
    }
}

fn read_record(timestamp_utc: Option<String>, payload: &str) -> (r: Result<UsageRecord, String>)
    ensures
        told(r) == record_in(timestamp_utc.deep_view(), payload@),
{
    let p = match json::read_parts(payload, "TokenUsageRecordPayload") {
        Err(e) => return Err(e),
        Ok(p) => p,
    };
    let session_id = json::read_optional_text(p.part("session_id", 0));
    let thread_id = json::read_optional_text(p.part("thread_id", 1));
    let turn_id = json::read_optional_text(p.part("turn_id", 2));
    let root_turn_id = json::read_optional_text(p.part("root_turn_id", 3));
    let response_id = json::read_optional_text(p.part("response_id", 4));
    let usage = read_required_usage(&p);
    let at = vec![
        json::fault_of(&session_id),
        json::fault_of(&thread_id),
        json::fault_of(&turn_id),
        json::fault_of(&root_turn_id),
        json::fault_of(&response_id),
        json::fault_of(&usage),
    ];
    let by_name: Vec<usize> = vec![4, 3, 0, 1, 2, 5];
    assert(at.deep_view() =~= seq![
        fault_in(told(session_id)),
        fault_in(told(thread_id)),
        fault_in(told(turn_id)),
        fault_in(told(root_turn_id)),
        fault_in(told(response_id)),
        fault_in(told(usage)),
    ]);
    assert(by_name@ =~= seq![4usize, 3, 0, 1, 2, 5]);
    if let Some(e) = p.find_fault(&at, &by_name) {
        return Err(e);
    }
    assert(by_name@[0] == 4 && by_name@[1] == 3 && by_name@[2] == 0 && by_name@[3] == 1 && by_name@[4] == 2 && by_name@[5] == 5);
    let session_id = match session_id {
        Err(e) => return Err(e),
        Ok(v) => v,
    };
    let thread_id = match thread_id {
        Err(e) => return Err(e),
        Ok(v) => v,
    };
    let turn_id = match turn_id {
        Err(e) => return Err(e),
        Ok(v) => v,
    };
    let root_turn_id = match root_turn_id {
        Err(e) => return Err(e),
        Ok(v) => v,
    };
    let response_id = match response_id {
        Err(e) => return Err(e),
        Ok(v) => v,
    };
    let usage = match usage {
        Err(e) => return Err(e),
        Ok(v) => v,
    };
    Ok(
        UsageRecord {
            timestamp_utc,
            session_id,
            thread_id,
            turn_id,
            root_turn_id,
            response_id,
            usage,
        },
    )
}

fn read_header(payload: &str) -> (r: Option<SessionMeta>)
    ensures
        match r {
            Some(m) => header_in(payload@) == Ok::<MetaView, Seq<char>>(m@),
            None => header_in(payload@) is Err,
        },
{
    let p = match json::read_parts(payload, "SessionMetaPayload") {
        Err(e) => return None,
        Ok(p) => p,
    };
    let session_id = json::read_optional_text(p.part("id", 0));
    let cwd = json::read_optional_text(p.part("cwd", 1));
    let originator = json::read_optional_text(p.part("originator", 2));
    let cli_version = json::read_optional_text(p.part("cli_version", 3));
    let at = vec![
        json::fault_of(&session_id),
        json::fault_of(&cwd),
        json::fault_of(&originator),
        json::fault_of(&cli_version),
    ];
    let by_name: Vec<usize> = vec![3, 1, 0, 2];
    assert(at.deep_view() =~= seq![
        fault_in(told(session_id)),
        fault_in(told(cwd)),
        fault_in(told(originator)),
        fault_in(told(cli_version)),
    ]);
    assert(by_name@ =~= seq![3usize, 1, 0, 2]);
    if let Some(e) = p.find_fault(&at, &by_name) {
        return None;
    }
    assert(by_name@[0] == 3 && by_name@[1] == 1 && by_name@[2] == 0 && by_name@[3] == 2);
    let session_id = match session_id {
        Err(e) => return None,
        Ok(v) => v,
    };
    let cwd = match cwd {
        Err(e) => return None,
        Ok(v) => v,
    };
    let originator = match originator {
        Err(e) => return None,
        Ok(v) => v,
    };
    let cli_version = match cli_version {
        Err(e) => return None,
        Ok(v) => v,
    };
    Some(
        SessionMeta {
            session_id,
            cwd,
            originator,
            cli_version,
        },
    )
}

fn read_turn(payload: &str) -> (r: Option<TurnContext>)
    ensures
        match r {
            Some(t) => turn_in(payload@) == Ok::<TurnView, Seq<char>>(t.deep_view()),
            None => turn_in(payload@) is Err,
        },
{
    let p = match json::read_parts(payload, "TurnContextPayload") {
        Err(e) => return None,
        Ok(p) => p,
    };
    let turn_id = json::read_required_text(
        p.part("turn_id", 0),
        json::tell_missing(&p, "turn_id", 0, 4, "TurnContextPayload"),
    );
    let model = json::read_optional_text(p.part("model", 1));
    let cwd = json::read_optional_text(p.part("cwd", 2));
    let root_turn_id = json::read_optional_text(p.part("root_turn_id", 3));
    let at = vec![
        json::fault_of(&turn_id),
        json::fault_of(&model),
        json::fault_of(&cwd),
        json::fault_of(&root_turn_id),
    ];
    let by_name: Vec<usize> = vec![2, 1, 3, 0];
    assert(at.deep_view() =~= seq![
        fault_in(told(turn_id)),
        fault_in(told(model)),
        fault_in(told(cwd)),
        fault_in(told(root_turn_id)),
    ]);
    assert(by_name@ =~= seq![2usize, 1, 3, 0]);
    if let Some(e) = p.find_fault(&at, &by_name) {
        return None;
    }
    assert(by_name@[0] == 2 && by_name@[1] == 1 && by_name@[2] == 3 && by_name@[3] == 0);
    let turn_id = match turn_id {
        Err(e) => return None,
        Ok(v) => v,
    };
    let model = match model {
        Err(e) => return None,
        Ok(v) => v,
    };
    let cwd = match cwd {
        Err(e) => return None,
        Ok(v) => v,
    };
    let root_turn_id = match root_turn_id {
        Err(e) => return None,
        Ok(v) => v,
    };
    Some(
        TurnContext {
            turn_id,
            model,
            cwd,
            root_turn_id,
        },
    )
}

fn read_count(timestamp_utc: Option<String>, info: &str) -> (r: Result<LegacyCount, String>)
    ensures
        told(r) == count_in(timestamp_utc.deep_view(), info@),
{
    let p = match json::read_parts(info, "LegacyInfo") {
        Err(e) => return Err(e),
        Ok(p) => p,
    };
    let last = read_optional_usage(p.part("last_token_usage", 0));
    let total = read_optional_usage(p.part("total_token_usage", 1));
    let at = vec![
        json::fault_of(&last),
        json::fault_of(&total),
    ];
    let by_name: Vec<usize> = vec![0, 1];
    assert(at.deep_view() =~= seq![
        fault_in(told(last)),
        fault_in(told(total)),
    ]);
    assert(by_name@ =~= seq![0usize, 1]);
    if let Some(e) = p.find_fault(&at, &by_name) {
        return Err(e);
    }
    assert(by_name@[0] == 0 && by_name@[1] == 1);
    let last = match last {
        Err(e) => return Err(e),
        Ok(v) => v,
    };
    let total = match total {
        Err(e) => return Err(e),
        Ok(v) => v,
    };
    Ok(
        LegacyCount {
            timestamp_utc,
            last,
            total_present: total.is_some(),
        },
    )
}

/// Tells whether an optional text is this one.
fn is_text(t: &Option<String>, s: &str) -> (r: bool)
    ensures
        r == (t.deep_view() == Some(s@)),
{
    match t {
        Some(x) => text::same(x.as_str(), s),
        None => false,
    }
}

fn read_event(f: Frame) -> (r: LineContent)
    ensures
        r@ == event_content(f.deep_view()),
{
    let payload = f.payload.as_str();
    let kind = json::read_string_member(payload, "type");
    if is_text(&kind, "token_count") {
        match json::read_any_member(payload, "info") {
            Some(info) => {
                if json::reads_null(info.as_str()) {
                    LineContent::EmptyCount
                } else {
                    match read_count(f.timestamp, info.as_str()) {
                        Ok(c) => LineContent::Count(c),
                        Err(e) => LineContent::BadCount(e),
                    }
                }
            },
            None => LineContent::EmptyCount,
        }
    } else if is_text(&kind, "thread_settings_applied") {
        let thread_id = match json::read_string_member(payload, "thread_id") {
            Some(t) => t,
            None => return LineContent::Other,
        };
        let settings = match json::read_any_member(payload, "thread_settings") {
            Some(s) => s,
            None => return LineContent::Other,
        };
        match json::read_string_member(settings.as_str(), "service_tier") {
            Some(service_tier) => {
                let applied_ts = match f.timestamp {
                    Some(t) => t,
                    None => String::new(),
                };
                LineContent::Settings(TierSetting { thread_id, applied_ts, service_tier })
            },
            None => LineContent::Other,
        }
    } else {
        LineContent::Other
    }
}

/// Reads one line.
pub fn read_line(line: &str) -> (r: LineContent)
    ensures
        r@ == content_of(line@),
{
    proof {
        reveal(content_of);
    }
    let all = text::letters(line);
    if !(text::contains(&all, "\"token_usage_record\"") || text::contains(&all, "\"turn_context\"")
        || text::contains(&all, "\"token_count\"") || text::contains(&all, "\"session_meta\"")
        || text::contains(&all, "\"thread_settings_applied\"")) {
        return LineContent::Other;
    }
    let f = match read_frame(line) {
        Ok(f) => f,
        Err(e) => return LineContent::Fault(e),
    };
    read_framed(f)
}

/// Reads what a line in its frame says.
fn read_framed(f: Frame) -> (r: LineContent)
    ensures
        r@ == framed_content(f.deep_view()),
{
    if text::same(f.kind.as_str(), "session_meta") {
        LineContent::Header(read_header(f.payload.as_str()))
    } else if text::same(f.kind.as_str(), "turn_context") {
        match read_turn(f.payload.as_str()) {
            Some(t) => LineContent::Turn(t),
            None => LineContent::Other,
        }
    } else if text::same(f.kind.as_str(), "token_usage_record") {
        match read_record(f.timestamp, f.payload.as_str()) {
            Ok(r) => LineContent::Record(r),
            Err(e) => LineContent::BadRecord(e),
        }
    } else if text::same(f.kind.as_str(), "event_msg") {
        read_event(f)
    } else {
        LineContent::Other
    }
}

/// The running totals never count: a member of the payload that is none of the fields of a
/// record, wherever it stands, does not change the record.
pub proof fn law_running_totals_never_count(
    timestamp_utc: Option<Seq<char>>,
    payload: Seq<char>,
    extended: Seq<char>,
    members: Seq<(Seq<char>, Seq<char>)>,
    place: int,
    name: Seq<char>,
    value: Seq<char>,
)
    requires
        json_elements(payload) is None,
        json_elements(extended) is None,
        0 <= place <= members.len(),
        json_members(payload) == Ok::<_, Seq<char>>(members),
        json_members(extended) == Ok::<_, Seq<char>>(members.insert(place, (name, value))),
        name != "session_id"@ && name != "thread_id"@ && name != "turn_id"@,
        name != "root_turn_id"@ && name != "response_id"@ && name != "usage"@,
    ensures
        record_in(timestamp_utc, extended) == record_in(timestamp_utc, payload),
{
    json::lemma_member_insert(members, place, name, value, "session_id"@);
    json::lemma_member_insert(members, place, name, value, "thread_id"@);
    json::lemma_member_insert(members, place, name, value, "turn_id"@);
    json::lemma_member_insert(members, place, name, value, "root_turn_id"@);
    json::lemma_member_insert(members, place, name, value, "response_id"@);
    json::lemma_member_insert(members, place, name, value, "usage"@);
}

} // verus!
