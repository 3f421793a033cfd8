//! Reading a log file line by line, from its start or from a checkpoint.

use vstd::bytes::spec_u64_to_le_bytes;
use vstd::bytes::u64_to_le_bytes;
use vstd::prelude::*;
use vstd::utf8::*;

use crate::line;
use crate::line::or_empty;
use crate::line::content_of;
use crate::line::ContentView;
use crate::line::LineContent;
use crate::line::RecordView;
use crate::line::TurnView;
use crate::model::copy_text;
use crate::model::no_result;
use crate::model::CallView;
use crate::model::EventView;
use crate::model::FileCounters;
use crate::model::FileParseResult;
use crate::model::InferenceCall;
use crate::model::MetaView;
use crate::model::ModelConfidence;
use crate::model::RawUsageEvent;
use crate::model::ResultView;
use crate::model::RootModel;
use crate::model::RootModelView;
use crate::model::ServiceTier;
use crate::model::SessionMeta;
use crate::model::SourceFormat;
use crate::model::TierSetting;
use crate::model::TierSettingView;
use crate::model::TokenUsage;
use crate::outside;
use crate::outside::is_digest;
use crate::outside::json_fault;
use crate::outside::lossy_text;
use crate::outside::sha256_hex;
use crate::text;
use crate::text::decimal_of;
use crate::text::text_le;
use crate::text::text_lt;
use crate::text_map::TextMap;

verus! {

/// One more.
pub open spec fn more(n: u64) -> u64 {
    (n + 1) as u64
}

/// One more where something holds.
pub open spec fn more_if(n: u64, b: bool) -> u64 {
    if b {
        more(n)
    } else {
        n
    }
}

/// The message that names a line, cut where it is too long.
pub open spec fn line_message(ordinal: nat, what: Seq<char>, e: Seq<char>) -> Seq<char> {
    cut_message("line "@ + decimal_of(ordinal) + what + e)
}

/// The models of the roots once a turn of `root` names `model`.
pub open spec fn root_step(
    roots: Map<Seq<char>, RootModelView>,
    root: Seq<char>,
    model: Seq<char>,
) -> Map<Seq<char>, RootModelView> {
    if roots.contains_key(root) && roots[root] != RootModelView::Unique(model) {
        roots.insert(root, RootModelView::Ambiguous)
    } else {
        roots.insert(root, RootModelView::Unique(model))
    }
}

/// What is known once the context of a turn is read.
pub open spec fn turn_step(r: ResultView, t: TurnView) -> ResultView {
    ResultView {
        turn_models: match t.model {
            Some(model) => r.turn_models.insert(t.turn_id, model),
            None => r.turn_models,
        },
        root_models: match (t.model, t.root_turn_id) {
            (Some(model), Some(root)) => root_step(r.root_models, root, model),
            _ => r.root_models,
        },
        turn_cwd: match t.cwd {
            Some(cwd) => r.turn_cwd.insert(t.turn_id, cwd),
            None => r.turn_cwd,
        },
        ..r
    }
}

/// The event of a usage record.
pub open spec fn record_event(ordinal: nat, p: RecordView) -> EventView {
    EventView {
        timestamp_utc: p.timestamp_utc,
        session_id: p.session_id,
        thread_id: p.thread_id,
        turn_id: p.turn_id,
        root_turn_id: p.root_turn_id,
        response_id: p.response_id,
        usage: p.usage,
        source_format: SourceFormat::TokenUsageRecord,
        source_ordinal: ordinal as u64,
    }
}

/// The event of a legacy count.
pub open spec fn legacy_event(
    ordinal: nat,
    timestamp_utc: Option<Seq<char>>,
    session_id: Option<Seq<char>>,
    usage: TokenUsage,
) -> EventView {
    EventView {
        timestamp_utc,
        session_id,
        thread_id: None,
        turn_id: None,
        root_turn_id: None,
        response_id: None,
        usage,
        source_format: SourceFormat::LegacyTokenCount,
        source_ordinal: ordinal as u64,
    }
}

/// What is known once a line is read that says `c`, apart from the count of lines.
pub open spec fn content_step(r: ResultView, ordinal: nat, c: ContentView) -> ResultView {
    match c {
        ContentView::Other => r,
        ContentView::Fault(e) => ResultView {
            counters: FileCounters {
                lines_json_errors: more(r.counters.lines_json_errors),
                ..r.counters
            },
            errors: r.errors.push(line_message(ordinal, ": JSON error: "@, e)),
            ..r
        },
        ContentView::Header(m) => if r.meta_seen {
            r
        } else {
            ResultView {
                meta_seen: true,
                meta: match m {
                    Some(m) => m,
                    None => r.meta,
                },
                ..r
            }
        },
        ContentView::Turn(t) => turn_step(r, t),
        ContentView::Record(p) => ResultView {
            counters: FileCounters {
                subset_violations: more_if(
                    r.counters.subset_violations,
                    p.usage.spec_subset_violation(),
                ),
                records_without_response_id: more_if(
                    r.counters.records_without_response_id,
                    p.response_id is None,
                ),
                usage_records: more(r.counters.usage_records),
                ..r.counters
            },
            primary_events: more(r.primary_events),
            raw_calls: r.raw_calls.push(record_event(ordinal, p)),
            ..r
        },
        ContentView::BadRecord(e) => ResultView {
            counters: FileCounters {
                lines_json_errors: more(r.counters.lines_json_errors),
                ..r.counters
            },
            errors: r.errors.push(line_message(ordinal, ": malformed token_usage_record: "@, e)),
            ..r
        },
        ContentView::EmptyCount => ResultView {
            counters: FileCounters {
                legacy_token_count_events: more(r.counters.legacy_token_count_events),
                legacy_null_info: more(r.counters.legacy_null_info),
                ..r.counters
            },
            ..r
        },
        ContentView::Count(n) => ResultView {
            counters: FileCounters {
                legacy_token_count_events: more(r.counters.legacy_token_count_events),
                legacy_total_usage_present: more_if(
                    r.counters.legacy_total_usage_present,
                    n.total_present,
                ),
                subset_violations: more_if(
                    r.counters.subset_violations,
                    n.last is Some && n.last->0.spec_subset_violation(),
                ),
                ..r.counters
            },
            legacy_events: more_if(r.legacy_events, n.last is Some),
            legacy_totals: match n.last {
                Some(last) => r.legacy_totals.plus(last),
                None => r.legacy_totals,
            },
            raw_calls: match n.last {
                Some(last) => r.raw_calls.push(
                    legacy_event(ordinal, n.timestamp_utc, r.meta.session_id, last),
                ),
                None => r.raw_calls,
            },
            ..r
        },
        ContentView::BadCount(e) => ResultView {
            counters: FileCounters {
                legacy_token_count_events: more(r.counters.legacy_token_count_events),
                lines_json_errors: more(r.counters.lines_json_errors),
                ..r.counters
            },
            errors: r.errors.push(line_message(ordinal, ": malformed token_count info: "@, e)),
            ..r
        },
        ContentView::Settings(s) => ResultView {
            thread_settings: r.thread_settings.push(s),
            ..r
        },
    }
}

/// What is known once line number `ordinal` is read, which says `c`.
pub open spec fn step(r: ResultView, ordinal: nat, c: ContentView) -> ResultView {
    content_step(
        ResultView {
            counters: FileCounters { lines_total: more(r.counters.lines_total), ..r.counters },
            ..r
        },
        ordinal,
        c,
    )
}

/// What lines say together, the first of them being line number `first`.
pub open spec fn all_steps(contents: Seq<ContentView>, first: nat) -> ResultView
    decreases contents.len(),
{
    if contents.len() == 0 {
        no_result()
    } else {
        step(
            all_steps(contents.drop_last(), first),
            (first + contents.len() - 1) as nat,
            contents.last(),
        )
    }
}

/// No counter exceeds `n`.
pub open spec fn counts_within(r: ResultView, n: nat) -> bool {
    &&& r.counters.lines_total <= n
    &&& r.counters.lines_json_errors <= n
    &&& r.counters.usage_records <= n
    &&& r.counters.legacy_token_count_events <= n
    &&& r.counters.legacy_null_info <= n
    &&& r.counters.legacy_total_usage_present <= n
    &&& r.counters.subset_violations <= n
    &&& r.counters.records_without_response_id <= n
    &&& r.counters.duplicates_ignored <= n
    &&& r.legacy_events <= n
    &&& r.primary_events <= n
}

/// No counter exceeds the number of lines.
pub proof fn lemma_counts_within(contents: Seq<ContentView>, first: nat)
    requires
        contents.len() <= u64::MAX,
    ensures
        counts_within(all_steps(contents, first), contents.len()),
    decreases contents.len(),
{
    if contents.len() > 0 {
        lemma_counts_within(contents.drop_last(), first);
    }
}

fn message(ordinal: u64, what: &str, e: &str) -> (r: String)
    ensures
        r@ == line_message(ordinal as nat, what@, e@),
{
    let mut r = "line ".to_owned();
    r.append(text::decimal(ordinal).as_str());
    r.append(what);
    r.append(e);
    truncate_err(r.as_str())
}

fn note_root(roots: &mut TextMap<RootModel>, root: String, model: String)
    ensures
        final(roots)@ == root_step(old(roots)@, root@, model@),
{
    let differs = match roots.get(root.as_str()) {
        Some(RootModel::Unique(m)) => !text::same(m.as_str(), model.as_str()),
        Some(RootModel::Ambiguous) => true,
        None => false,
    };
    if differs {
        roots.insert(root, RootModel::Ambiguous);
    } else {
        roots.insert(root, RootModel::Unique(model));
    }
}

/// Takes in line number `ordinal`, which says `c`.
pub fn take_line(r: &mut FileParseResult, ordinal: u64, c: LineContent)
    requires
        counts_within(old(r)@, (u64::MAX - 1) as nat),
    ensures
        final(r)@ == step(old(r)@, ordinal as nat, c@),
{
    let ghost before = r@;
    r.counters.lines_total = r.counters.lines_total + 1;
    match c {
        LineContent::Other => {},
        LineContent::Fault(e) => {
            r.counters.lines_json_errors = r.counters.lines_json_errors + 1;
            r.errors.push(message(ordinal, ": JSON error: ", e.as_str()));
        },
        LineContent::Header(m) => {
            if !r.meta_seen {
                r.meta_seen = true;
                if let Some(m) = m {
                    r.meta = m;
                }
            }
        },
        LineContent::Turn(t) => {
            if let Some(model) = &t.model {
                r.turn_models.insert(t.turn_id.clone(), model.clone());
                if let Some(root) = &t.root_turn_id {
                    note_root(&mut r.root_models, root.clone(), model.clone());
                }
            }
            if let Some(cwd) = t.cwd {
                r.turn_cwd.insert(t.turn_id, cwd);
            }
        },
        LineContent::Record(p) => {
            if p.usage.subset_violation() {
                r.counters.subset_violations = r.counters.subset_violations + 1;
            }
            if p.response_id.is_none() {
                r.counters.records_without_response_id = r.counters.records_without_response_id + 1;
            }
            r.counters.usage_records = r.counters.usage_records + 1;
            r.primary_events = r.primary_events + 1;
            r.raw_calls.push(
                RawUsageEvent {
                    timestamp_utc: p.timestamp_utc,
                    session_id: p.session_id,
                    thread_id: p.thread_id,
                    turn_id: p.turn_id,
                    root_turn_id: p.root_turn_id,
                    response_id: p.response_id,
                    usage: p.usage,
                    source_format: SourceFormat::TokenUsageRecord,
                    source_ordinal: ordinal,
                },
            );
        },
        LineContent::BadRecord(e) => {
            r.counters.lines_json_errors = r.counters.lines_json_errors + 1;
            r.errors.push(message(ordinal, ": malformed token_usage_record: ", e.as_str()));
        },
        LineContent::EmptyCount => {
            r.counters.legacy_token_count_events = r.counters.legacy_token_count_events + 1;
            r.counters.legacy_null_info = r.counters.legacy_null_info + 1;
        },
        LineContent::Count(n) => {
            r.counters.legacy_token_count_events = r.counters.legacy_token_count_events + 1;
            if n.total_present {
                r.counters.legacy_total_usage_present = r.counters.legacy_total_usage_present + 1;
            }
            if let Some(last) = n.last {
                if last.subset_violation() {
                    r.counters.subset_violations = r.counters.subset_violations + 1;
                }
                r.legacy_events = r.legacy_events + 1;
                r.legacy_totals.add(&last);
                let session_id = copy_text(&r.meta.session_id);
                r.raw_calls.push(
                    RawUsageEvent {
                        timestamp_utc: n.timestamp_utc,
                        session_id,
                        thread_id: None,
                        turn_id: None,
                        root_turn_id: None,
                        response_id: None,
                        usage: last,
                        source_format: SourceFormat::LegacyTokenCount,
                        source_ordinal: ordinal,
                    },
                );
            }
        },
        LineContent::BadCount(e) => {
            r.counters.legacy_token_count_events = r.counters.legacy_token_count_events + 1;
            r.counters.lines_json_errors = r.counters.lines_json_errors + 1;
            r.errors.push(message(ordinal, ": malformed token_count info: ", e.as_str()));
        },
        LineContent::Settings(s) => {
            r.thread_settings.push(s);
        },
    }
    assert(r@ =~= step(before, ordinal as nat, c@));
}

/// Where the line that starts at `at` ends: behind its line feed, or with the file.
pub open spec fn line_end(bytes: Seq<u8>, at: int) -> int
    decreases bytes.len() - at,
{
    if at >= bytes.len() {
        bytes.len() as int
    } else if bytes[at] == 10 {
        at + 1
    } else {
        line_end(bytes, at + 1)
    }
}

pub proof fn lemma_line_end(bytes: Seq<u8>, at: int)
    requires
        0 <= at < bytes.len(),
    ensures
        at < line_end(bytes, at) <= bytes.len(),
    decreases bytes.len() - at,
{
    if bytes[at] != 10 {
        if at + 1 < bytes.len() {
            lemma_line_end(bytes, at + 1);
        } else {
            assert(line_end(bytes, at + 1) == bytes.len());
        }
    }
}

/// A blank that may stand behind the JSON of a line: a line feed, a carriage return, a space or a
/// tab.
pub open spec fn is_trailing(b: u8) -> bool {
    b == 10 || b == 13 || b == 32 || b == 9
}

/// Bytes without the line end and the other blanks at their end.
pub open spec fn trimmed(bytes: Seq<u8>) -> Seq<u8>
    decreases bytes.len(),
{
    if bytes.len() > 0 && is_trailing(bytes.last()) {
        trimmed(bytes.drop_last())
    } else {
        bytes
    }
}

/// Bytes without the line feeds and carriage returns at their end.
pub open spec fn without_line_end(bytes: Seq<u8>) -> Seq<u8>
    decreases bytes.len(),
{
    if bytes.len() > 0 && (bytes.last() == 10 || bytes.last() == 13) {
        without_line_end(bytes.drop_last())
    } else {
        bytes
    }
}

/// The text of a line. Blanks behind JSON say nothing and are left out; a line that is not JSON
/// keeps them, since they may hold the place where its fault lies.
pub open spec fn line_text(bytes: Seq<u8>) -> Seq<char> {
    let body = lossy_text(trimmed(bytes));
    if json_fault(body) is None {
        body
    } else {
        lossy_text(without_line_end(bytes))
    }
}

/// What a stretch of a file says, read line by line.
#[verifier::ext_equal]
pub struct Reading {
    /// What each line says that was taken.
    pub contents: Seq<ContentView>,
    /// Where reading stopped: behind the last line that was taken.
    pub end: int,
    /// The last line that was taken still lacks its line feed.
    pub pending: bool,
}

/// Reads from `at` to the end. A last line without its line feed is taken only where it is JSON.
/// Where such a line was taken before (`pending`) and only its line end, or blanks before it, have
/// come since, these are no line of their own.
pub open spec fn reading(bytes: Seq<u8>, at: int, pending: bool) -> Reading
    decreases bytes.len() - at,
{
    if at < 0 || at >= bytes.len() {
        Reading { contents: Seq::empty(), end: at, pending }
    } else {
        proof {
            lemma_line_end(bytes, at);
        }
        let end = line_end(bytes, at);
        let whole = bytes[end - 1] == 10;
        let line = bytes.subrange(at, end);
        let body = trimmed(line);
        if pending && body.len() == 0 {
            reading(bytes, end, !whole)
        } else if !whole && json_fault(lossy_text(body)) is Some {
            Reading { contents: Seq::empty(), end: at, pending }
        } else {
            let rest = reading(bytes, end, !whole);
            Reading { contents: seq![content_of(line_text(line))] + rest.contents, ..rest }
        }
    }
}

/// What could be read of a file.
pub enum FileContent {
    Whole(Vec<u8>),
    /// Reading broke off behind these bytes.
    Broken(Vec<u8>, String),
    Unreadable(String),
}

/// What a [`FileContent`] says.
pub enum FileContentView {
    Whole(Seq<u8>),
    Broken(Seq<u8>, Seq<char>),
    Unreadable(Seq<char>),
}

impl View for FileContent {
    type V = FileContentView;

    open spec fn view(&self) -> FileContentView {
        match self {
            FileContent::Whole(b) => FileContentView::Whole(b@),
            FileContent::Broken(b, e) => FileContentView::Broken(b@, e@),
            FileContent::Unreadable(e) => FileContentView::Unreadable(e@),
        }
    }
}

impl DeepView for FileContent {
    type V = FileContentView;

    open spec fn deep_view(&self) -> FileContentView {
        self.view()
    }
}

/// Bytes up to their last line feed.
pub open spec fn whole_lines(bytes: Seq<u8>) -> Seq<u8>
    decreases bytes.len(),
{
    if bytes.len() == 0 || bytes.last() == 10 {
        bytes
    } else {
        whole_lines(bytes.drop_last())
    }
}

pub proof fn lemma_whole_lines_len(bytes: Seq<u8>)
    ensures
        whole_lines(bytes).len() <= bytes.len(),
    decreases bytes.len(),
{
    if bytes.len() > 0 && bytes.last() != 10 {
        lemma_whole_lines_len(bytes.drop_last());
    }
}

/// What reading a file gives, and from where to go on.
pub struct ParsedFile {
    pub result: FileParseResult,
    /// Offset behind the last line that was taken.
    pub end_offset: u64,
    pub lines_processed: u64,
    /// The last line that was taken still lacks its line feed.
    pub pending_newline: bool,
}

/// What a [`ParsedFile`] says.
#[verifier::ext_equal]
pub struct ParsedView {
    pub result: ResultView,
    pub end_offset: int,
    pub lines_processed: nat,
    pub pending_newline: bool,
}

impl View for ParsedFile {
    type V = ParsedView;

    open spec fn view(&self) -> ParsedView {
        ParsedView {
            result: self.result@,
            end_offset: self.end_offset as int,
            lines_processed: self.lines_processed as nat,
            pending_newline: self.pending_newline,
        }
    }
}

/// What a reading gives, its first line being line number `first`.
pub open spec fn parsed_reading(rd: Reading, first: nat) -> ParsedView {
    ParsedView {
        result: all_steps(rd.contents, first),
        end_offset: rd.end,
        lines_processed: rd.contents.len(),
        pending_newline: rd.pending,
    }
}

/// What reading a file from a checkpoint gives.
pub open spec fn parsed(content: FileContentView, start: int, first: nat, pending: bool) -> ParsedView {
    match content {
        FileContentView::Whole(bytes) => parsed_reading(reading(bytes, start, pending), first),
        FileContentView::Broken(bytes, e) => {
            let p = parsed_reading(reading(whole_lines(bytes), start, pending), first);
            ParsedView { result: ResultView { errors: p.result.errors.push(e), ..p.result }, ..p }
        },
        FileContentView::Unreadable(e) => ParsedView {
            result: ResultView { open_failed: true, errors: seq![e], ..no_result() },
            end_offset: start,
            lines_processed: 0,
            pending_newline: pending,
        },
    }
}

fn find_line_end(bytes: &Vec<u8>, at: usize) -> (end: usize)
    requires
        at < bytes@.len(),
    ensures
        end == line_end(bytes@, at as int),
        at < end <= bytes@.len(),
{
    let n: usize = bytes.len();
    let mut i: usize = at;
    while i < n
        invariant
            at <= i <= n,
            n == bytes@.len(),
            line_end(bytes@, at as int) == line_end(bytes@, i as int),
        decreases n - i,
    {
        if bytes[i] == 10 {
            return i + 1;
        }
        i += 1;
    }
    n
}

/// Where the bytes from `at` to `end` end without their line end.
fn plain_end(bytes: &Vec<u8>, at: usize, end: usize) -> (stop: usize)
    requires
        at <= end <= bytes@.len(),
    ensures
        at <= stop <= end,
        bytes@.subrange(at as int, stop as int) == without_line_end(
            bytes@.subrange(at as int, end as int),
        ),
{
    let mut stop: usize = end;
    while stop > at && (bytes[stop - 1] == 10 || bytes[stop - 1] == 13)
        invariant
            at <= stop <= end <= bytes@.len(),
            without_line_end(bytes@.subrange(at as int, end as int)) == without_line_end(
                bytes@.subrange(at as int, stop as int),
            ),
        decreases stop,
    {
        assert(bytes@.subrange(at as int, stop as int).drop_last() =~= bytes@.subrange(
            at as int,
            stop - 1,
        ));
        stop -= 1;
    }
    stop
}

/// Where the bytes from `at` to `end` end without the blanks at their end.
fn body_end(bytes: &Vec<u8>, at: usize, end: usize) -> (stop: usize)
    requires
        at <= end <= bytes@.len(),
    ensures
        at <= stop <= end,
        bytes@.subrange(at as int, stop as int) == trimmed(bytes@.subrange(at as int, end as int)),
{
    let mut stop: usize = end;
    while stop > at && (bytes[stop - 1] == 10 || bytes[stop - 1] == 13 || bytes[stop - 1] == 32
        || bytes[stop - 1] == 9)
        invariant
            at <= stop <= end <= bytes@.len(),
            trimmed(bytes@.subrange(at as int, end as int)) == trimmed(
                bytes@.subrange(at as int, stop as int),
            ),
        decreases stop,
    {
        assert(bytes@.subrange(at as int, stop as int).drop_last() =~= bytes@.subrange(
            at as int,
            stop - 1,
        ));
        stop -= 1;
    }
    stop
}

/// The text of the bytes from `at` to `end`.
fn text_between(bytes: &Vec<u8>, at: usize, end: usize) -> (r: String)
    requires
        at <= end <= bytes@.len(),
    ensures
        r@ == lossy_text(bytes@.subrange(at as int, end as int)),
{
    let mut part: Vec<u8> = Vec::new();
    let mut i: usize = at;
    while i < end
        invariant
            at <= i <= end <= bytes@.len(),
            part@ == bytes@.subrange(at as int, i as int),
        decreases end - i,
    {
        part.push(bytes[i]);
        assert(part@ =~= bytes@.subrange(at as int, i + 1));
        i += 1;
    }
    outside::read_lossy(&part)
}

fn read_from(bytes: &Vec<u8>, start: u64, first: u64, pending: bool) -> (r: ParsedFile)
    requires
        first + bytes@.len() <= u64::MAX + start,
    ensures
        r@ == parsed_reading(reading(bytes@, start as int, pending), first as nat),
{
    let n: usize = bytes.len();
    if start >= n as u64 {
        let r = ParsedFile {
            result: FileParseResult::default(),
            end_offset: start,
            lines_processed: 0,
            pending_newline: pending,
        };
        return r;
    }
    let mut at: usize = start as usize;
    let mut pending_now = pending;
    let mut index: u64 = 0;
    let mut result = FileParseResult::default();
    let ghost mut done: Seq<ContentView> = Seq::empty();
    proof {
        let rd = reading(bytes@, start as int, pending);
        assert(done + rd.contents =~= rd.contents);
    }
    while at < n
        invariant
            n == bytes@.len(),
            first + n <= u64::MAX + start,
            start <= at <= n,
            index <= at - start,
            index == done.len(),
            result@ == all_steps(done, first as nat),
            ({
                let rest = reading(bytes@, at as int, pending_now);
                reading(bytes@, start as int, pending) == (Reading {
                    contents: done + rest.contents,
                    ..rest
                })
            }),
        ensures
            index == done.len(),
            result@ == all_steps(done, first as nat),
            reading(bytes@, start as int, pending) == (Reading {
                contents: done,
                end: at as int,
                pending: pending_now,
            }),
        decreases n - at,
    {
        let ghost rest = reading(bytes@, at as int, pending_now);
        let end: usize = find_line_end(bytes, at);
        let whole = bytes[end - 1] == 10;
        let stop: usize = body_end(bytes, at, end);
        if pending_now && stop == at {
            at = end;
            pending_now = !whole;
        } else {
            let plain: usize = plain_end(bytes, at, end);
            let mut line = text_between(bytes, at, stop);
            if !whole || plain != stop {
                if outside::check_json(line.as_str()).is_some() {
                    if !whole {
                        assert(done + rest.contents =~= done);
                        break;
                    }
                    line = text_between(bytes, at, plain);
                }
            }
            assert(line@ == line_text(bytes@.subrange(at as int, end as int)));
            let c = line::read_line(line.as_str());
            proof {
                lemma_counts_within(done, first as nat);
                let next = reading(bytes@, end as int, !whole);
                assert(done + rest.contents =~= done.push(c@) + next.contents);
                assert(done.push(c@).drop_last() =~= done);
                done = done.push(c@);
            }
            take_line(&mut result, first + index, c);
            index += 1;
            at = end;
            pending_now = !whole;
        }
        proof {
            if at >= n {
                assert(done + reading(bytes@, at as int, pending_now).contents =~= done);
            }
        }
    }
    ParsedFile {
        result,
        end_offset: at as u64,
        lines_processed: index,
        pending_newline: pending_now,
    }
}

fn copy_whole_lines(bytes: &Vec<u8>) -> (r: Vec<u8>)
    ensures
        r@ == whole_lines(bytes@),
        r@.len() <= bytes@.len(),
{
    let mut stop: usize = bytes.len();
    assert(bytes@.take(stop as int) =~= bytes@);
    while stop > 0 && bytes[stop - 1] != 10
        invariant
            stop <= bytes@.len(),
            whole_lines(bytes@) == whole_lines(bytes@.take(stop as int)),
        decreases stop,
    {
        assert(bytes@.take(stop as int).drop_last() =~= bytes@.take(stop - 1));
        stop -= 1;
    }
    let mut r: Vec<u8> = Vec::new();
    let mut i: usize = 0;
    while i < stop
        invariant
            i <= stop <= bytes@.len(),
            r@ == bytes@.take(i as int),
        decreases stop - i,
    {
        r.push(bytes[i]);
        assert(r@ =~= bytes@.take(i + 1));
        i += 1;
    }
    r
}

/// The number of bytes at hand.
pub open spec fn content_len(content: FileContentView) -> nat {
    match content {
        FileContentView::Whole(bytes) => bytes.len(),
        FileContentView::Broken(bytes, e) => bytes.len(),
        FileContentView::Unreadable(e) => 0,
    }
}

/// Reads a file line by line from `start_offset`, where `lines_before` lines precede. The
/// checkpoint that comes back never lies behind a last line that is not complete JSON: that line
/// is read again.
pub fn parse_file_from(
    content: &FileContent,
    start_offset: u64,
    lines_before: u64,
    resume_pending: bool,
) -> (r: ParsedFile)
    requires
        lines_before + content_len(content@) <= u64::MAX + start_offset,
    ensures
        r@ == parsed(content@, start_offset as int, lines_before as nat, resume_pending),
{
    match content {
        FileContent::Whole(bytes) => read_from(bytes, start_offset, lines_before, resume_pending),
        FileContent::Broken(bytes, e) => {
            let kept = copy_whole_lines(bytes);
            let mut r = read_from(&kept, start_offset, lines_before, resume_pending);
            let ghost before = r@;
            r.result.errors.push(e.clone());
            proof {
                let p = before;
                assert(r@ =~= ParsedView {
                    result: ResultView { errors: p.result.errors.push(e@), ..p.result },
                    ..p
                });
            }
            r
        },
        FileContent::Unreadable(e) => {
            let mut result = FileParseResult::default();
            result.open_failed = true;
            result.errors.push(e.clone());
            proof {
                assert(result@ =~= ResultView {
                    open_failed: true,
                    errors: seq![e@],
                    ..no_result()
                });
            }
            ParsedFile {
                result,
                end_offset: start_offset,
                lines_processed: 0,
                pending_newline: resume_pending,
            }
        },
    }
}

/// Reads a whole file.
pub fn parse_file(content: &FileContent) -> (r: FileParseResult)
    ensures
        r@ == parsed(content@, 0, 0, false).result,
{
    let size: usize = match content {
        FileContent::Whole(bytes) => bytes.len(),
        FileContent::Broken(bytes, e) => bytes.len(),
        FileContent::Unreadable(e) => 0,
    };
    assert(size == content_len(content@));
    parse_file_from(content, 0, 0, false).result
}

/// The model of an event: that of its turn (exact), else the one model of its root (inferred),
/// else none.
pub open spec fn model_of(
    e: EventView,
    turn_models: Map<Seq<char>, Seq<char>>,
    root_models: Map<Seq<char>, RootModelView>,
) -> (Option<Seq<char>>, ModelConfidence) {
    if e.turn_id is Some && turn_models.contains_key(e.turn_id->0) {
        (Some(turn_models[e.turn_id->0]), ModelConfidence::Exact)
    } else if e.root_turn_id is Some && root_models.contains_key(e.root_turn_id->0)
        && root_models[e.root_turn_id->0] is Unique {
        (Some(root_models[e.root_turn_id->0]->Unique_0), ModelConfidence::Inferred)
    } else {
        (None, ModelConfidence::Unknown)
    }
}

/// Finds the model of an event. A model is never made up.
pub fn resolve_model(
    event: &RawUsageEvent,
    turn_models: &TextMap<String>,
    root_models: &TextMap<RootModel>,
) -> (r: (Option<String>, ModelConfidence))
    ensures
        (r.0.deep_view(), r.1) == model_of(event@, turn_models@, root_models@),
{
    if let Some(turn) = &event.turn_id {
        if let Some(model) = turn_models.get(turn.as_str()) {
            return (Some(model.clone()), ModelConfidence::Exact);
        }
    }
    if let Some(root) = &event.root_turn_id {
        if let Some(RootModel::Unique(model)) = root_models.get(root.as_str()) {
            return (Some(model.clone()), ModelConfidence::Inferred);
        }
    }
    (None, ModelConfidence::Unknown)
}

/// A text followed by a bar, as bytes.
pub open spec fn barred(t: Option<Seq<char>>) -> Seq<u8> {
    encode_utf8(or_empty(t)) + seq![0x7cu8]
}

/// What the identity of an event is made of: its session, thread, turn, time, counts and place
/// in its file, but not the path of the file.
pub open spec fn uid_bytes(e: EventView) -> Seq<u8> {
    barred(e.session_id) + barred(e.thread_id) + barred(e.turn_id) + barred(e.timestamp_utc)
        + spec_u64_to_le_bytes(e.usage.input_tokens) + spec_u64_to_le_bytes(
        e.usage.cached_input_tokens,
    ) + spec_u64_to_le_bytes(e.usage.output_tokens) + spec_u64_to_le_bytes(e.source_ordinal)
}

/// The identity of an event.
pub open spec fn uid_of(e: EventView) -> Seq<char> {
    sha256_hex(uid_bytes(e))
}

fn append_barred(bytes: &mut Vec<u8>, t: &Option<String>)
    ensures
        final(bytes)@ == old(bytes)@ + barred(t.deep_view()),
{
    let ghost before = bytes@;
    if let Some(s) = t {
        let more = s.as_str().as_bytes();
        bytes.extend_from_slice(more);
        assert(bytes@ =~= before + encode_utf8(s@));
    } else {
        proof {
            encode_utf8_empty();
        }
        assert(bytes@ =~= before + encode_utf8(Seq::<char>::empty()));
    }
    bytes.push(0x7c);
    assert(bytes@ =~= before + barred(t.deep_view()));
}

proof fn encode_utf8_empty()
    ensures
        encode_utf8(Seq::<char>::empty()) == Seq::<u8>::empty(),
{
}

/// The identity of an event: what deduplicates it where it has no response id. A file that is
/// moved keeps the identity of its events. It is written in 64 lower case hexadecimal digits.
pub fn event_uid(event: &RawUsageEvent) -> (r: String)
    ensures
        r@ == uid_of(event@),
        is_digest(r@),
{
    let mut bytes: Vec<u8> = Vec::new();
    append_barred(&mut bytes, &event.session_id);
    append_barred(&mut bytes, &event.thread_id);
    append_barred(&mut bytes, &event.turn_id);
    append_barred(&mut bytes, &event.timestamp_utc);
    let mut input = u64_to_le_bytes(event.usage.input_tokens);
    bytes.append(&mut input);
    let mut cached = u64_to_le_bytes(event.usage.cached_input_tokens);
    bytes.append(&mut cached);
    let mut output = u64_to_le_bytes(event.usage.output_tokens);
    bytes.append(&mut output);
    let mut ordinal = u64_to_le_bytes(event.source_ordinal);
    bytes.append(&mut ordinal);
    assert(bytes@ =~= uid_bytes(event@));
    outside::digest_hex(&bytes)
}

/// The longest message, in bytes, that is kept whole.
pub const MAX_ERR: usize = 240;

/// The last place up to `n` where a character starts or the text ends.
pub open spec fn last_boundary(bytes: Seq<u8>, n: nat) -> nat
    decreases n,
{
    if n == 0 || is_char_boundary(bytes, n as int) {
        n
    } else {
        last_boundary(bytes, (n - 1) as nat)
    }
}

/// A message as it is kept: where it is too long, the characters that fit, and a mark.
pub open spec fn cut_message(s: Seq<char>) -> Seq<char> {
    let bytes = encode_utf8(s);
    if bytes.len() > MAX_ERR {
        decode_utf8(bytes.subrange(0, last_boundary(bytes, MAX_ERR as nat) as int)) + "…"@
    } else {
        s
    }
}

/// A message cut to its first bytes where it is too long. A character that does not fit whole is
/// left out.
pub fn truncate_err(s: &str) -> (r: String)
    ensures
        r@ == cut_message(s@),
{
    if s.as_bytes().len() > MAX_ERR {
        let ghost bytes = encode_utf8(s@);
        let mut n: usize = MAX_ERR;
        proof {
            encode_utf8_valid_utf8(s@);
            is_char_boundary_start_end_of_seq(bytes);
        }
        while !s.is_char_boundary(n)
            invariant
                n <= MAX_ERR < bytes.len(),
                bytes == encode_utf8(s@),
                is_char_boundary(bytes, 0),
                last_boundary(bytes, n as nat) == last_boundary(bytes, MAX_ERR as nat),
            decreases n,
        {
            n -= 1;
        }
        let (head, tail) = s.split_at(n);
        proof {
            encode_utf8_decode_utf8(head@);
        }
        text::join(head, "…")
    } else {
        s.to_owned()
    }
}

/// A setting that was applied at `applied_ts` holds for an event: a later one never does.
pub open spec fn applies_at(applied_ts: Seq<char>, timestamp_utc: Option<Seq<char>>) -> bool {
    timestamp_utc is None || text_le(applied_ts, timestamp_utc->0)
}

/// The tier that the last setting for the thread of the event gives, among those that hold for
/// it; unknown where there is none.
pub open spec fn tier_of(e: EventView, settings: Seq<TierSettingView>) -> ServiceTier
    decreases settings.len(),
{
    if settings.len() == 0 {
        ServiceTier::Unknown
    } else if e.thread_id == Some(settings.last().thread_id) && applies_at(
        settings.last().applied_ts,
        e.timestamp_utc,
    ) {
        ServiceTier::of_text(settings.last().service_tier)
    } else {
        tier_of(e, settings.drop_last())
    }
}

/// Tells whether a setting that was applied at `applied_ts` holds for an event at this time.
pub fn is_applied(applied_ts: &str, timestamp_utc: &Option<String>) -> (r: bool)
    ensures
        r == applies_at(applied_ts@, timestamp_utc.deep_view()),
{
    match timestamp_utc {
        Some(t) => !text::is_before(t.as_str(), applied_ts),
        None => true,
    }
}

/// Finds the tier of an event among the settings of its file.
pub fn resolve_tier(event: &RawUsageEvent, settings: &Vec<TierSetting>) -> (r: ServiceTier)
    ensures
        r == tier_of(event@, settings.deep_view()),
{
    let thread = match &event.thread_id {
        Some(t) => t.as_str(),
        None => {
            proof {
                lemma_no_thread_no_tier(event@, settings.deep_view());
            }
            return ServiceTier::Unknown;
        },
    };
    let mut i: usize = settings.len();
    let ghost all = settings.deep_view();
    assert(all.take(i as int) =~= all);
    while i > 0
        invariant
            i <= settings@.len(),
            all == settings.deep_view(),
            event@.thread_id == Some(thread@),
            tier_of(event@, all) == tier_of(event@, all.take(i as int)),
        decreases i,
    {
        let s = &settings[i - 1];
        assert(all[i - 1] == s@);
        assert(all.take(i as int).last() == s@);
        assert(all.take(i as int).drop_last() =~= all.take(i - 1));
        if text::same(s.thread_id.as_str(), thread) && is_applied(
            s.applied_ts.as_str(),
            &event.timestamp_utc,
        ) {
            return ServiceTier::parse(s.service_tier.as_str());
        }
        i -= 1;
    }
    ServiceTier::Unknown
}

proof fn lemma_no_thread_no_tier(e: EventView, settings: Seq<TierSettingView>)
    requires
        e.thread_id is None,
    ensures
        tier_of(e, settings) == ServiceTier::Unknown,
    decreases settings.len(),
{
    if settings.len() > 0 {
        lemma_no_thread_no_tier(e, settings.drop_last());
    }
}

/// The first of two texts that is there.
pub open spec fn first_of(a: Option<Seq<char>>, b: Option<Seq<char>>) -> Option<Seq<char>> {
    if a is Some {
        a
    } else {
        b
    }
}

/// What is known beside the events: the header, and the models and directories of the turns.
pub open spec fn call_of(
    e: EventView,
    meta: MetaView,
    turn_models: Map<Seq<char>, Seq<char>>,
    turn_cwd: Map<Seq<char>, Seq<char>>,
    root_models: Map<Seq<char>, RootModelView>,
    settings: Seq<TierSettingView>,
    source_file: Seq<char>,
    archived: bool,
) -> CallView {
    let (model_slug, model_confidence) = model_of(e, turn_models, root_models);
    let turn_dir = if e.turn_id is Some && turn_cwd.contains_key(e.turn_id->0) {
        Some(turn_cwd[e.turn_id->0])
    } else {
        None
    };
    CallView {
        event_uid: uid_of(e),
        response_id: e.response_id,
        timestamp_utc: e.timestamp_utc,
        session_id: first_of(e.session_id, meta.session_id),
        thread_id: e.thread_id,
        turn_id: e.turn_id,
        root_turn_id: e.root_turn_id,
        model_slug,
        model_confidence,
        service_tier: tier_of(e, settings),
        project_path: first_of(meta.cwd, turn_dir),
        activity: None,
        parent_thread_id: None,
        thread_title: None,
        usage: e.usage,
        source_format: e.source_format,
        source_file,
        source_ordinal: e.source_ordinal,
        archived,
    }
}

/// Makes the call of an event: its model, its tier, its project and its identity.
pub fn finalize_call(
    event: &RawUsageEvent,
    meta: &SessionMeta,
    turn_models: &TextMap<String>,
    turn_cwd: &TextMap<String>,
    root_models: &TextMap<RootModel>,
    thread_settings: &Vec<TierSetting>,
    source_file: &str,
    archived: bool,
) -> (r: InferenceCall)
    ensures
        r@ == call_of(
            event@,
            meta@,
            turn_models@,
            turn_cwd@,
            root_models@,
            thread_settings.deep_view(),
            source_file@,
            archived,
        ),
        is_digest(r@.event_uid),
{
    let (model_slug, model_confidence) = resolve_model(event, turn_models, root_models);
    let mut project_path = copy_text(&meta.cwd);
    if project_path.is_none() {
        if let Some(t) = &event.turn_id {
            if let Some(cwd) = turn_cwd.get(t.as_str()) {
                project_path = Some(cwd.clone());
            }
        }
    }
    let session_id = match &event.session_id {
        Some(s) => Some(s.clone()),
        None => copy_text(&meta.session_id),
    };
    InferenceCall {
        event_uid: event_uid(event),
        response_id: copy_text(&event.response_id),
        timestamp_utc: copy_text(&event.timestamp_utc),
        session_id,
        thread_id: copy_text(&event.thread_id),
        turn_id: copy_text(&event.turn_id),
        root_turn_id: copy_text(&event.root_turn_id),
        model_slug,
        model_confidence,
        service_tier: resolve_tier(event, thread_settings),
        project_path,
        activity: None,
        parent_thread_id: None,
        thread_title: None,
        usage: event.usage,
        source_format: event.source_format,
        source_file: source_file.to_owned(),
        source_ordinal: event.source_ordinal,
        archived,
    }
}

/// A model is never made up: it is there exactly where its confidence is not unknown, and then a
/// turn or a root of the event names it.
pub proof fn law_no_model_is_made_up(
    e: EventView,
    turn_models: Map<Seq<char>, Seq<char>>,
    root_models: Map<Seq<char>, RootModelView>,
)
    ensures
        ({
            let (model, confidence) = model_of(e, turn_models, root_models);
            &&& model is Some <==> confidence != ModelConfidence::Unknown
            &&& confidence == ModelConfidence::Exact ==> turn_models.contains_pair(
                e.turn_id->0,
                model->0,
            )
            &&& confidence == ModelConfidence::Inferred ==> root_models.contains_pair(
                e.root_turn_id->0,
                RootModelView::Unique(model->0),
            )
        }),
{
}

/// Once the turns of a root have named two models, no later turn makes one of them its model.
pub proof fn law_ambiguous_root_stays_so(
    roots: Map<Seq<char>, RootModelView>,
    root: Seq<char>,
    turn_root: Seq<char>,
    model: Seq<char>,
)
    requires
        roots.contains_pair(root, RootModelView::Ambiguous),
    ensures
        root_step(roots, turn_root, model).contains_pair(root, RootModelView::Ambiguous),
{
}

/// A setting that is applied later than an event never changes the tier of that event.
pub proof fn law_later_setting_changes_nothing(
    e: EventView,
    settings: Seq<TierSettingView>,
    later: TierSettingView,
)
    requires
        e.timestamp_utc is Some,
        text_lt(e.timestamp_utc->0, later.applied_ts),
    ensures
        tier_of(e, settings.push(later)) == tier_of(e, settings),
{
    assert(settings.push(later).drop_last() =~= settings);
}

/// Neither the path of its file nor its place among the archived ones has a part in the identity
/// of a call: moving a file changes no identity.
pub proof fn law_moved_file_keeps_identities(
    e: EventView,
    meta: MetaView,
    turn_models: Map<Seq<char>, Seq<char>>,
    turn_cwd: Map<Seq<char>, Seq<char>>,
    root_models: Map<Seq<char>, RootModelView>,
    settings: Seq<TierSettingView>,
    from: Seq<char>,
    to: Seq<char>,
    was_archived: bool,
    archived: bool,
)
    ensures
        ({
            let a = call_of(
                e,
                meta,
                turn_models,
                turn_cwd,
                root_models,
                settings,
                from,
                was_archived,
            );
            let b = call_of(e, meta, turn_models, turn_cwd, root_models, settings, to, archived);
            a.event_uid == b.event_uid && a.response_id == b.response_id
        }),
{
}

/// The events of a file are numbered in the order of its lines, from its first line on.
pub proof fn law_events_stand_in_line_order(contents: Seq<ContentView>, first: nat)
    requires
        first + contents.len() <= u64::MAX,
    ensures
        ({
            let events = all_steps(contents, first).raw_calls;
            &&& forall|i: int|
                0 <= i < events.len() ==> first <= (#[trigger] events[i]).source_ordinal < first
                    + contents.len()
            &&& forall|i: int, j: int|
                0 <= i < j < events.len() ==> (#[trigger] events[i]).source_ordinal < (
                #[trigger] events[j]).source_ordinal
        }),
    decreases contents.len(),
{
    if contents.len() > 0 {
        law_events_stand_in_line_order(contents.drop_last(), first);
    }
}

} // verus!
