//! What the lines of a file come to, one more line at a time, and what a call is made of.

use vstd::bytes::*;
use vstd::prelude::*;
use vstd::utf8::*;

use crate::line::ContentView;
use crate::line::CountView;
use crate::line::RecordView;
use crate::line::TurnView;
use crate::model::EventView;
use crate::model::FileCounters;
use crate::model::MetaView;
use crate::model::ModelConfidence;
use crate::model::ResultView;
use crate::model::RootModelView;
use crate::model::ServiceTier;
use crate::model::SourceFormat;
use crate::model::TierSettingView;
use crate::outside::sha256_hex;
use crate::parser::all_steps;
use crate::parser::call_of;
use crate::parser::cut_message;
use crate::parser::model_of;
use crate::parser::tier_of;
use crate::parser::uid_bytes;
use crate::text::decimal_of;
use crate::text::text_le;
use crate::text::text_lt;

verus! {

/// One more line makes one more step.
proof fn lemma_one_more_line(contents: Seq<ContentView>, first: nat, c: ContentView)
    ensures
        all_steps(contents.push(c), first) == crate::parser::step(
            all_steps(contents, first),
            (first + contents.len()) as nat,
            c,
        ),
{
    assert(contents.push(c).drop_last() =~= contents);
}

/// Nothing but the number of lines has changed, apart from what the other clauses of a law name.
pub open spec fn keeps_turns(a: ResultView, b: ResultView) -> bool {
    &&& b.turn_models == a.turn_models
    &&& b.turn_cwd == a.turn_cwd
    &&& b.root_models == a.root_models
}

/// A usage record adds one event, with everything that the record tells, under the number of its
/// line; it counts as one usage record, and changes nothing that other lines told.
pub proof fn law_record_adds_its_event(contents: Seq<ContentView>, first: nat, p: RecordView)
    requires
        first + contents.len() < u64::MAX,
    ensures
        ({
            let a = all_steps(contents, first);
            let b = all_steps(contents.push(ContentView::Record(p)), first);
            let e = b.raw_calls.last();
            &&& b.raw_calls.len() == a.raw_calls.len() + 1
            &&& b.raw_calls.drop_last() == a.raw_calls
            &&& e.timestamp_utc == p.timestamp_utc
            &&& e.session_id == p.session_id
            &&& e.thread_id == p.thread_id
            &&& e.turn_id == p.turn_id
            &&& e.root_turn_id == p.root_turn_id
            &&& e.response_id == p.response_id
            &&& e.usage == p.usage
            &&& e.source_format == SourceFormat::TokenUsageRecord
            &&& e.source_ordinal == first + contents.len()
            &&& b.primary_events == a.primary_events + 1
            &&& b.legacy_events == a.legacy_events
            &&& b.legacy_totals == a.legacy_totals
            &&& b.counters == (FileCounters {
                lines_total: (a.counters.lines_total + 1) as u64,
                usage_records: (a.counters.usage_records + 1) as u64,
                records_without_response_id: if p.response_id is None {
                    (a.counters.records_without_response_id + 1) as u64
                } else {
                    a.counters.records_without_response_id
                },
                subset_violations: if p.usage.cached_input_tokens <= p.usage.input_tokens
                    && p.usage.cache_write_input_tokens <= p.usage.input_tokens
                    && p.usage.reasoning_output_tokens <= p.usage.output_tokens {
                    a.counters.subset_violations
                } else {
                    (a.counters.subset_violations + 1) as u64
                },
                ..a.counters
            })
            &&& keeps_turns(a, b)
            &&& b.meta == a.meta && b.meta_seen == a.meta_seen
            &&& b.errors == a.errors
            &&& b.thread_settings == a.thread_settings
        }),
{
    lemma_one_more_line(contents, first, ContentView::Record(p));
    let a = all_steps(contents, first);
    crate::parser::lemma_counts_within(contents, first);
    let b = all_steps(contents.push(ContentView::Record(p)), first);
    assert(b.raw_calls.drop_last() =~= a.raw_calls);
}

/// A legacy count with a usage adds one event, with that very usage, the time of the line and the
/// session of the header before it; one without a usage adds none.
pub proof fn law_legacy_count_adds_its_event(
    contents: Seq<ContentView>,
    first: nat,
    n: CountView,
)
    requires
        first + contents.len() < u64::MAX,
    ensures
        ({
            let a = all_steps(contents, first);
            let b = all_steps(contents.push(ContentView::Count(n)), first);
            let e = b.raw_calls.last();
            &&& n.last is None ==> b.raw_calls == a.raw_calls && b.legacy_events == a.legacy_events
                && b.legacy_totals == a.legacy_totals
            &&& n.last is Some ==> {
                &&& b.raw_calls.len() == a.raw_calls.len() + 1
                &&& b.raw_calls.drop_last() == a.raw_calls
                &&& e.usage == n.last->0
                &&& e.timestamp_utc == n.timestamp_utc
                &&& e.session_id == a.meta.session_id
                &&& e.thread_id is None && e.turn_id is None && e.root_turn_id is None
                &&& e.response_id is None
                &&& e.source_format == SourceFormat::LegacyTokenCount
                &&& e.source_ordinal == first + contents.len()
                &&& b.legacy_events == a.legacy_events + 1
                &&& b.legacy_totals.input_tokens == a.legacy_totals.input_tokens.wrapping_add(
                    n.last->0.input_tokens,
                )
                &&& b.legacy_totals.cached_input_tokens
                    == a.legacy_totals.cached_input_tokens.wrapping_add(
                    n.last->0.cached_input_tokens,
                )
                &&& b.legacy_totals.cache_write_input_tokens
                    == a.legacy_totals.cache_write_input_tokens.wrapping_add(
                    n.last->0.cache_write_input_tokens,
                )
                &&& b.legacy_totals.output_tokens == a.legacy_totals.output_tokens.wrapping_add(
                    n.last->0.output_tokens,
                )
                &&& b.legacy_totals.reasoning_output_tokens
                    == a.legacy_totals.reasoning_output_tokens.wrapping_add(
                    n.last->0.reasoning_output_tokens,
                )
                &&& b.legacy_totals.total_tokens == a.legacy_totals.total_tokens.wrapping_add(
                    n.last->0.total_tokens,
                )
            }
            &&& b.primary_events == a.primary_events
            &&& b.counters == (FileCounters {
                lines_total: (a.counters.lines_total + 1) as u64,
                legacy_token_count_events: (a.counters.legacy_token_count_events + 1) as u64,
                legacy_total_usage_present: if n.total_present {
                    (a.counters.legacy_total_usage_present + 1) as u64
                } else {
                    a.counters.legacy_total_usage_present
                },
                subset_violations: if n.last is Some && (n.last->0.cached_input_tokens
                    > n.last->0.input_tokens || n.last->0.cache_write_input_tokens
                    > n.last->0.input_tokens || n.last->0.reasoning_output_tokens
                    > n.last->0.output_tokens) {
                    (a.counters.subset_violations + 1) as u64
                } else {
                    a.counters.subset_violations
                },
                ..a.counters
            })
            &&& keeps_turns(a, b)
            &&& b.meta == a.meta && b.meta_seen == a.meta_seen
            &&& b.errors == a.errors
            &&& b.thread_settings == a.thread_settings
        }),
{
    lemma_one_more_line(contents, first, ContentView::Count(n));
    crate::parser::lemma_counts_within(contents, first);
    let a = all_steps(contents, first);
    let b = all_steps(contents.push(ContentView::Count(n)), first);
    if n.last is Some {
        assert(b.raw_calls.drop_last() =~= a.raw_calls);
    }
}

/// A line that is neither a usage record nor a legacy count with a usage adds no event, and takes
/// none away.
pub proof fn law_other_lines_add_no_event(contents: Seq<ContentView>, first: nat, c: ContentView)
    requires
        !(c is Record),
        !(c is Count),
    ensures
        ({
            let a = all_steps(contents, first);
            let b = all_steps(contents.push(c), first);
            &&& b.raw_calls == a.raw_calls
            &&& b.primary_events == a.primary_events
            &&& b.legacy_events == a.legacy_events
            &&& b.legacy_totals == a.legacy_totals
            &&& b.counters.usage_records == a.counters.usage_records
            &&& b.counters.subset_violations == a.counters.subset_violations
            &&& b.open_failed == a.open_failed
            &&& !(c is Turn) ==> keeps_turns(a, b)
            &&& !(c is Header) ==> b.meta == a.meta && b.meta_seen == a.meta_seen
            &&& !(c is Settings) ==> b.thread_settings == a.thread_settings
            &&& !(c is Fault || c is BadRecord || c is BadCount) ==> b.errors == a.errors
                && b.counters.lines_json_errors == a.counters.lines_json_errors
        }),
{
    lemma_one_more_line(contents, first, c);
}

/// A line that cannot be read is counted and told once, and reading goes on as if it were not
/// there.
pub proof fn law_faults_are_told(contents: Seq<ContentView>, first: nat, c: ContentView)
    requires
        first + contents.len() < u64::MAX,
        c is Fault || c is BadRecord || c is BadCount,
    ensures
        ({
            let a = all_steps(contents, first);
            let b = all_steps(contents.push(c), first);
            &&& b.errors.len() == a.errors.len() + 1
            &&& b.errors.drop_last() == a.errors
            &&& b.counters.lines_json_errors == a.counters.lines_json_errors + 1
            &&& b.counters.lines_total == a.counters.lines_total + 1
            &&& b.counters.legacy_token_count_events == a.counters.legacy_token_count_events + (
            if c is BadCount {
                1int
            } else {
                0
            })
        }),
{
    lemma_one_more_line(contents, first, c);
    crate::parser::lemma_counts_within(contents, first);
    let a = all_steps(contents, first);
    let b = all_steps(contents.push(c), first);
    assert(b.errors.drop_last() =~= a.errors);
}

/// A legacy count without information is counted as such.
pub proof fn law_empty_counts_are_counted(contents: Seq<ContentView>, first: nat)
    requires
        first + contents.len() < u64::MAX,
    ensures
        ({
            let a = all_steps(contents, first);
            let b = all_steps(contents.push(ContentView::EmptyCount), first);
            &&& b.counters.legacy_token_count_events == a.counters.legacy_token_count_events + 1
            &&& b.counters.legacy_null_info == a.counters.legacy_null_info + 1
        }),
{
    lemma_one_more_line(contents, first, ContentView::EmptyCount);
    crate::parser::lemma_counts_within(contents, first);
}

/// The first header tells the session; later ones change nothing.
pub proof fn law_first_header_counts(
    contents: Seq<ContentView>,
    first: nat,
    m: Option<MetaView>,
)
    ensures
        ({
            let a = all_steps(contents, first);
            let b = all_steps(contents.push(ContentView::Header(m)), first);
            &&& b.meta_seen
            &&& (forall|i: int| 0 <= i < contents.len() ==> !((#[trigger] contents[i]) is Header))
                ==> (m is Some ==> b.meta == m->0) && (m is None ==> b.meta.session_id is None
                && b.meta.cwd is None)
            &&& (exists|i: int| 0 <= i < contents.len() && (#[trigger] contents[i]) is Header)
                ==> b.meta == a.meta
        }),
{
    lemma_one_more_line(contents, first, ContentView::Header(m));
    lemma_header_seen(contents, first);
}

proof fn lemma_header_seen(contents: Seq<ContentView>, first: nat)
    ensures
        all_steps(contents, first).meta_seen <==> exists|i: int|
            0 <= i < contents.len() && (#[trigger] contents[i]) is Header,
        !all_steps(contents, first).meta_seen ==> all_steps(contents, first).meta.session_id is None
            && all_steps(contents, first).meta.cwd is None,
    decreases contents.len(),
{
    if contents.len() > 0 {
        let init = contents.drop_last();
        lemma_header_seen(init, first);
        assert(contents[contents.len() - 1] == contents.last());
        if exists|i: int| 0 <= i < init.len() && (#[trigger] init[i]) is Header {
            let i = choose|i: int| 0 <= i < init.len() && (#[trigger] init[i]) is Header;
            assert(contents[i] is Header);
        }
        if exists|i: int| 0 <= i < contents.len() && (#[trigger] contents[i]) is Header {
            let i = choose|i: int| 0 <= i < contents.len() && (#[trigger] contents[i]) is Header;
            if i < init.len() {
                assert(init[i] is Header);
            }
        }
    }
}

/// The context of a turn tells the model and the directory of that turn alone, the last context
/// prevailing; a root has a model where all its turns name that one.
pub proof fn law_turn_tells_its_model(contents: Seq<ContentView>, first: nat, t: TurnView)
    ensures
        ({
            let a = all_steps(contents, first);
            let b = all_steps(contents.push(ContentView::Turn(t)), first);
            &&& t.model is Some ==> b.turn_models.contains_pair(t.turn_id, t.model->0)
            &&& t.model is None ==> b.turn_models == a.turn_models
            &&& forall|x: Seq<char>|
                x != t.turn_id ==> #[trigger] b.turn_models.contains_key(x)
                    == a.turn_models.contains_key(x) && (a.turn_models.contains_key(x)
                    ==> b.turn_models[x] == a.turn_models[x])
            &&& t.cwd is Some ==> b.turn_cwd.contains_pair(t.turn_id, t.cwd->0)
            &&& t.cwd is None ==> b.turn_cwd == a.turn_cwd
            &&& forall|x: Seq<char>|
                x != t.turn_id ==> #[trigger] b.turn_cwd.contains_key(x)
                    == a.turn_cwd.contains_key(x) && (a.turn_cwd.contains_key(x) ==> b.turn_cwd[x]
                    == a.turn_cwd[x])
            &&& t.model is None || t.root_turn_id is None ==> b.root_models == a.root_models
            &&& t.model is Some && t.root_turn_id is Some ==> {
                let root = t.root_turn_id->0;
                &&& b.root_models.contains_key(root)
                &&& b.root_models[root] == RootModelView::Unique(t.model->0)
                    || b.root_models[root] is Ambiguous
                &&& b.root_models[root] is Ambiguous <==> a.root_models.contains_key(root)
                    && a.root_models[root] != RootModelView::Unique(t.model->0)
                &&& forall|x: Seq<char>|
                    x != root ==> #[trigger] b.root_models.contains_key(x)
                        == a.root_models.contains_key(x) && (a.root_models.contains_key(x)
                        ==> b.root_models[x] == a.root_models[x])
            }
        }),
{
    lemma_one_more_line(contents, first, ContentView::Turn(t));
}

/// Settings are kept in the order in which they were applied.
pub proof fn law_settings_are_kept(contents: Seq<ContentView>, first: nat, s: TierSettingView)
    ensures
        ({
            let a = all_steps(contents, first);
            let b = all_steps(contents.push(ContentView::Settings(s)), first);
            &&& b.thread_settings.len() == a.thread_settings.len() + 1
            &&& b.thread_settings.last() == s
            &&& b.thread_settings.drop_last() == a.thread_settings
        }),
{
    lemma_one_more_line(contents, first, ContentView::Settings(s));
    let a = all_steps(contents, first);
    let b = all_steps(contents.push(ContentView::Settings(s)), first);
    assert(b.thread_settings.drop_last() =~= a.thread_settings);
}

/// Only the settings of its own thread tell the tier of an event: without one it is unknown.
pub proof fn law_only_its_thread_tells_a_tier(e: EventView, settings: Seq<TierSettingView>)
    requires
        forall|i: int|
            0 <= i < settings.len() ==> e.thread_id != Some((#[trigger] settings[i]).thread_id),
    ensures
        tier_of(e, settings) == ServiceTier::Unknown,
    decreases settings.len(),
{
    if settings.len() > 0 {
        let init = settings.drop_last();
        assert(settings[settings.len() - 1] == settings.last());
        assert forall|i: int| 0 <= i < init.len() implies e.thread_id != Some(
            (#[trigger] init[i]).thread_id,
        ) by {
            assert(init[i] == settings[i]);
        }
        law_only_its_thread_tells_a_tier(e, init);
    }
}

/// A setting of another thread never changes the tier of an event, wherever it comes.
pub proof fn law_other_threads_change_no_tier(
    e: EventView,
    before: Seq<TierSettingView>,
    other: TierSettingView,
    behind: Seq<TierSettingView>,
)
    requires
        e.thread_id != Some(other.thread_id),
    ensures
        tier_of(e, before.push(other) + behind) == tier_of(e, before + behind),
    decreases behind.len(),
{
    if behind.len() == 0 {
        assert(before.push(other) + behind =~= before.push(other));
        assert(before + behind =~= before);
        assert(before.push(other).drop_last() =~= before);
    } else {
        let (x, y) = (before.push(other) + behind, before + behind);
        assert(x.last() == behind.last() && y.last() == behind.last());
        assert(x.drop_last() =~= before.push(other) + behind.drop_last());
        assert(y.drop_last() =~= before + behind.drop_last());
        law_other_threads_change_no_tier(e, before, other, behind.drop_last());
    }
}

/// The last setting of its thread that was applied no later than an event tells its tier; an event
/// without a time takes the last one of all.
pub proof fn law_last_setting_tells_the_tier(
    e: EventView,
    before: Seq<TierSettingView>,
    s: TierSettingView,
    behind: Seq<TierSettingView>,
)
    requires
        e.thread_id == Some(s.thread_id),
        e.timestamp_utc is None || text_le(s.applied_ts, e.timestamp_utc->0),
        forall|i: int|
            0 <= i < behind.len() ==> e.thread_id != Some((#[trigger] behind[i]).thread_id) || (
            e.timestamp_utc is Some && text_lt(e.timestamp_utc->0, behind[i].applied_ts)),
    ensures
        s.service_tier == "fast"@ ==> tier_of(e, before.push(s) + behind) == ServiceTier::Fast,
        s.service_tier == "standard"@ || s.service_tier == "default"@ || s.service_tier
            == "priority"@ || s.service_tier == "flex"@ ==> tier_of(e, before.push(s) + behind)
            == ServiceTier::Standard,
        s.service_tier != "fast"@ && s.service_tier != "standard"@ && s.service_tier != "default"@
            && s.service_tier != "priority"@ && s.service_tier != "flex"@ ==> tier_of(
            e,
            before.push(s) + behind,
        ) == ServiceTier::Unknown,
    decreases behind.len(),
{
    let all = before.push(s) + behind;
    if behind.len() == 0 {
        assert(all =~= before.push(s));
        lemma_tier_names();
    } else {
        let rest = behind.drop_last();
        assert(all.last() == behind.last());
        assert(behind[behind.len() - 1] == behind.last());
        assert(all.drop_last() =~= before.push(s) + rest);
        assert forall|i: int| 0 <= i < rest.len() implies e.thread_id != Some(
            (#[trigger] rest[i]).thread_id,
        ) || (e.timestamp_utc is Some && text_lt(e.timestamp_utc->0, rest[i].applied_ts)) by {
            assert(rest[i] == behind[i]);
        }
        law_last_setting_tells_the_tier(e, before, s, rest);
    }
}

proof fn lemma_tier_names()
    ensures
        "fast"@ != "standard"@,
        "fast"@ != "default"@,
        "fast"@ != "priority"@,
        "fast"@ != "flex"@,
{
    reveal_strlit("fast");
    reveal_strlit("standard");
    reveal_strlit("default");
    reveal_strlit("priority");
    reveal_strlit("flex");
    assert("fast"@[1] != "flex"@[1]);
    assert("fast"@.len() == 4 && "standard"@.len() == 8 && "default"@.len() == 7
        && "priority"@.len() == 8);
}

/// The model of an event is that of its turn, and exact, wherever the turn is known; else the one
/// model of its root, and inferred; else there is none.
pub proof fn law_model_is_that_of_the_turn(
    e: EventView,
    turn_models: Map<Seq<char>, Seq<char>>,
    root_models: Map<Seq<char>, RootModelView>,
)
    ensures
        ({
            let (model, confidence) = model_of(e, turn_models, root_models);
            let turn = e.turn_id is Some && turn_models.contains_key(e.turn_id->0);
            let root = e.root_turn_id is Some && root_models.contains_key(e.root_turn_id->0);
            &&& turn ==> model == Some(turn_models[e.turn_id->0]) && confidence
                == ModelConfidence::Exact
            &&& !turn && root && root_models[e.root_turn_id->0] is Unique ==> model == Some(
                root_models[e.root_turn_id->0]->Unique_0,
            ) && confidence == ModelConfidence::Inferred
            &&& !turn && !root ==> model is None && confidence == ModelConfidence::Unknown
            &&& !turn && root && root_models[e.root_turn_id->0] is Ambiguous ==> model is None
                && confidence == ModelConfidence::Unknown
        }),
{
}

/// A call is its event: it keeps the ids, the time, the usage, the format and the line of the event
/// and the file that it was read from. A session that the event does not tell is that of the header,
/// and the project is that of the header, else that of the turn.
pub proof fn law_call_keeps_its_event(
    e: EventView,
    meta: MetaView,
    turn_models: Map<Seq<char>, Seq<char>>,
    turn_cwd: Map<Seq<char>, Seq<char>>,
    root_models: Map<Seq<char>, RootModelView>,
    settings: Seq<TierSettingView>,
    source_file: Seq<char>,
    archived: bool,
)
    ensures
        ({
            let c = call_of(
                e,
                meta,
                turn_models,
                turn_cwd,
                root_models,
                settings,
                source_file,
                archived,
            );
            &&& c.usage == e.usage
            &&& c.response_id == e.response_id
            &&& c.timestamp_utc == e.timestamp_utc
            &&& c.thread_id == e.thread_id
            &&& c.turn_id == e.turn_id
            &&& c.root_turn_id == e.root_turn_id
            &&& c.source_format == e.source_format
            &&& c.source_ordinal == e.source_ordinal
            &&& c.source_file == source_file
            &&& c.archived == archived
            &&& e.session_id is Some ==> c.session_id == e.session_id
            &&& e.session_id is None ==> c.session_id == meta.session_id
            &&& meta.cwd is Some ==> c.project_path == meta.cwd
            &&& meta.cwd is None && e.turn_id is Some && turn_cwd.contains_key(e.turn_id->0)
                ==> c.project_path == Some(turn_cwd[e.turn_id->0])
            &&& meta.cwd is None && !(e.turn_id is Some && turn_cwd.contains_key(e.turn_id->0))
                ==> c.project_path is None
            &&& c.model_slug == model_of(e, turn_models, root_models).0
            &&& c.model_confidence == model_of(e, turn_models, root_models).1
            &&& c.service_tier == tier_of(e, settings)
            &&& c.activity is None && c.parent_thread_id is None && c.thread_title is None
        }),
{
}

/// What the identity of an event is made of does not depend on its root, its response id, its format
/// or its other counts.
pub proof fn law_identity_is_of_these_parts(a: EventView, b: EventView)
    requires
        a.session_id == b.session_id,
        a.thread_id == b.thread_id,
        a.turn_id == b.turn_id,
        a.timestamp_utc == b.timestamp_utc,
        a.usage.input_tokens == b.usage.input_tokens,
        a.usage.cached_input_tokens == b.usage.cached_input_tokens,
        a.usage.output_tokens == b.usage.output_tokens,
        a.source_ordinal == b.source_ordinal,
    ensures
        crate::parser::uid_of(a) == crate::parser::uid_of(b),
{
}

/// Events that share their session, thread, turn and time, but not their counts or their line, are
/// told apart by what their identity is made of.
pub proof fn law_identity_tells_counts_and_lines(a: EventView, b: EventView)
    requires
        a.session_id == b.session_id,
        a.thread_id == b.thread_id,
        a.turn_id == b.turn_id,
        a.timestamp_utc == b.timestamp_utc,
        uid_bytes(a) == uid_bytes(b),
    ensures
        a.usage.input_tokens == b.usage.input_tokens,
        a.usage.cached_input_tokens == b.usage.cached_input_tokens,
        a.usage.output_tokens == b.usage.output_tokens,
        a.source_ordinal == b.source_ordinal,
{
    lemma_auto_spec_u64_to_from_le_bytes();
    let (x, y) = (uid_bytes(a), uid_bytes(b));
    let n = x.len();
    assert(x.subrange(n - 8, n as int) =~= spec_u64_to_le_bytes(a.source_ordinal));
    assert(y.subrange(n - 8, n as int) =~= spec_u64_to_le_bytes(b.source_ordinal));
    assert(x.subrange(n - 16, n - 8) =~= spec_u64_to_le_bytes(a.usage.output_tokens));
    assert(y.subrange(n - 16, n - 8) =~= spec_u64_to_le_bytes(b.usage.output_tokens));
    assert(x.subrange(n - 24, n - 16) =~= spec_u64_to_le_bytes(a.usage.cached_input_tokens));
    assert(y.subrange(n - 24, n - 16) =~= spec_u64_to_le_bytes(b.usage.cached_input_tokens));
    assert(x.subrange(n - 32, n - 24) =~= spec_u64_to_le_bytes(a.usage.input_tokens));
    assert(y.subrange(n - 32, n - 24) =~= spec_u64_to_le_bytes(b.usage.input_tokens));
}

/// A text is told by the bytes that it puts between others.
proof fn lemma_same_text(a: Option<Seq<char>>, b: Option<Seq<char>>, x: Seq<u8>, y: Seq<u8>)
    requires
        x + crate::parser::barred(a) + y == x + crate::parser::barred(b) + y,
    ensures
        crate::line::or_empty(a) == crate::line::or_empty(b),
{
    let (s, t) = (crate::line::or_empty(a), crate::line::or_empty(b));
    let (l, r) = (x + crate::parser::barred(a) + y, x + crate::parser::barred(b) + y);
    let n = encode_utf8(s).len();
    assert(l.len() == x.len() + n + 1 + y.len());
    assert(r.len() == x.len() + encode_utf8(t).len() + 1 + y.len());
    assert(l.subrange(x.len() as int, (x.len() + n) as int) =~= encode_utf8(s));
    assert(r.subrange(x.len() as int, (x.len() + n) as int) =~= encode_utf8(t));
    encode_utf8_decode_utf8(s);
    encode_utf8_decode_utf8(t);
}

/// The counts and the line in the identity of an event.
spec fn counts_bytes(e: EventView) -> Seq<u8> {
    spec_u64_to_le_bytes(e.usage.input_tokens) + spec_u64_to_le_bytes(e.usage.cached_input_tokens)
        + spec_u64_to_le_bytes(e.usage.output_tokens) + spec_u64_to_le_bytes(e.source_ordinal)
}

proof fn lemma_uid_parts(e: EventView)
    ensures
        uid_bytes(e) == crate::parser::barred(e.session_id) + crate::parser::barred(e.thread_id)
            + crate::parser::barred(e.turn_id) + crate::parser::barred(e.timestamp_utc)
            + counts_bytes(e),
{
    assert(uid_bytes(e) =~= crate::parser::barred(e.session_id) + crate::parser::barred(e.thread_id)
        + crate::parser::barred(e.turn_id) + crate::parser::barred(e.timestamp_utc) + counts_bytes(
        e,
    ));
}

proof fn lemma_regrouped(a: Seq<u8>, b: Seq<u8>, c: Seq<u8>, d: Seq<u8>, e: Seq<u8>)
    ensures
        a + b + c + d + e == Seq::<u8>::empty() + a + (b + c + d + e),
        a + b + c + d + e == a + b + (c + d + e),
        a + b + c + d + e == (a + b) + c + (d + e),
        a + b + c + d + e == (a + b + c) + d + e,
{
    assert(a + b + c + d + e =~= Seq::<u8>::empty() + a + (b + c + d + e));
    assert(a + b + c + d + e =~= a + b + (c + d + e));
    assert(a + b + c + d + e =~= (a + b) + c + (d + e));
}

/// Events that differ in their session alone are told apart by what their identity is made of; a
/// session that is absent counts as an empty one.
pub proof fn law_identity_tells_the_session(e: EventView, session: Option<Seq<char>>)
    requires
        uid_bytes(e) == uid_bytes(EventView { session_id: session, ..e }),
    ensures
        crate::line::or_empty(e.session_id) == crate::line::or_empty(session),
{
    let (a, b, c, d) = (
        crate::parser::barred(e.session_id),
        crate::parser::barred(e.thread_id),
        crate::parser::barred(e.turn_id),
        crate::parser::barred(e.timestamp_utc),
    );
    let (n, x) = (counts_bytes(e), crate::parser::barred(session));
    let other = EventView { session_id: session, ..e };
    lemma_uid_parts(e);
    lemma_uid_parts(other);
    lemma_regrouped(a, b, c, d, n);
    lemma_regrouped(x, b, c, d, n);
    lemma_same_text(e.session_id, session, Seq::<u8>::empty(), b + c + d + n);
}

/// Events that differ in their thread alone are told apart by what their identity is made of; a
/// thread that is absent counts as an empty one.
pub proof fn law_identity_tells_the_thread(e: EventView, thread: Option<Seq<char>>)
    requires
        uid_bytes(e) == uid_bytes(EventView { thread_id: thread, ..e }),
    ensures
        crate::line::or_empty(e.thread_id) == crate::line::or_empty(thread),
{
    let (a, b, c, d) = (
        crate::parser::barred(e.session_id),
        crate::parser::barred(e.thread_id),
        crate::parser::barred(e.turn_id),
        crate::parser::barred(e.timestamp_utc),
    );
    let (n, x) = (counts_bytes(e), crate::parser::barred(thread));
    let other = EventView { thread_id: thread, ..e };
    lemma_uid_parts(e);
    lemma_uid_parts(other);
    lemma_regrouped(a, b, c, d, n);
    lemma_regrouped(a, x, c, d, n);
    lemma_same_text(e.thread_id, thread, a, c + d + n);
}

/// Events that differ in their turn alone are told apart by what their identity is made of; a
/// turn that is absent counts as an empty one.
pub proof fn law_identity_tells_the_turn(e: EventView, turn: Option<Seq<char>>)
    requires
        uid_bytes(e) == uid_bytes(EventView { turn_id: turn, ..e }),
    ensures
        crate::line::or_empty(e.turn_id) == crate::line::or_empty(turn),
{
    let (a, b, c, d) = (
        crate::parser::barred(e.session_id),
        crate::parser::barred(e.thread_id),
        crate::parser::barred(e.turn_id),
        crate::parser::barred(e.timestamp_utc),
    );
    let (n, x) = (counts_bytes(e), crate::parser::barred(turn));
    let other = EventView { turn_id: turn, ..e };
    lemma_uid_parts(e);
    lemma_uid_parts(other);
    lemma_regrouped(a, b, c, d, n);
    lemma_regrouped(a, b, x, d, n);
    lemma_same_text(e.turn_id, turn, a + b, d + n);
}

/// Events that differ in their time alone are told apart by what their identity is made of; a
/// time that is absent counts as an empty one.
pub proof fn law_identity_tells_the_time(e: EventView, time: Option<Seq<char>>)
    requires
        uid_bytes(e) == uid_bytes(EventView { timestamp_utc: time, ..e }),
    ensures
        crate::line::or_empty(e.timestamp_utc) == crate::line::or_empty(time),
{
    let (a, b, c, d) = (
        crate::parser::barred(e.session_id),
        crate::parser::barred(e.thread_id),
        crate::parser::barred(e.turn_id),
        crate::parser::barred(e.timestamp_utc),
    );
    let (n, x) = (counts_bytes(e), crate::parser::barred(time));
    let other = EventView { timestamp_utc: time, ..e };
    lemma_uid_parts(e);
    lemma_uid_parts(other);
    lemma_regrouped(a, b, c, d, n);
    lemma_regrouped(a, b, c, x, n);
    lemma_same_text(e.timestamp_utc, time, a + b + c, n);
}

/// The message of a line that cannot be read names the line and tells what is wrong with it.
pub proof fn law_message_names_its_line(contents: Seq<ContentView>, first: nat, e: Seq<char>)
    ensures
        ({
            let line = "line "@ + decimal_of((first + contents.len()) as nat);
            let told = |c: ContentView| all_steps(contents.push(c), first).errors.last();
            &&& told(ContentView::Fault(e)) == cut_message(line + ": JSON error: "@ + e)
            &&& told(ContentView::BadRecord(e)) == cut_message(
                line + ": malformed token_usage_record: "@ + e,
            )
        }),
{
    lemma_one_more_line(contents, first, ContentView::Fault(e));
    lemma_one_more_line(contents, first, ContentView::BadRecord(e));
}

/// Before its first line a file has told nothing.
pub proof fn law_nothing_is_told_at_first(first: nat)
    ensures
        ({
            let r = all_steps(Seq::empty(), first);
            &&& r.raw_calls.len() == 0
            &&& r.errors.len() == 0
            &&& r.thread_settings.len() == 0
            &&& !r.meta_seen && r.meta.session_id is None && r.meta.cwd is None
            &&& !r.open_failed
            &&& r.primary_events == 0 && r.legacy_events == 0
            &&& r.counters.lines_total == 0 && r.counters.usage_records == 0
            &&& forall|k: Seq<char>|
                !(#[trigger] r.turn_models.contains_key(k)) && !r.turn_cwd.contains_key(k)
                    && !r.root_models.contains_key(k)
        }),
{
}

/// The identity of a call is the digest of its session, thread, turn and time, each closed by a bar,
/// and of its input, cached input and output and its line, in eight bytes each.
pub proof fn law_identity_is_the_digest_of_its_parts(
    e: EventView,
    meta: MetaView,
    turn_models: Map<Seq<char>, Seq<char>>,
    turn_cwd: Map<Seq<char>, Seq<char>>,
    root_models: Map<Seq<char>, RootModelView>,
    settings: Seq<TierSettingView>,
    source_file: Seq<char>,
    archived: bool,
)
    ensures
        ({
            let text = |t: Option<Seq<char>>|
                if t is Some {
                    encode_utf8(t->0).push(0x7c)
                } else {
                    seq![0x7cu8]
                };
            let c = call_of(
                e,
                meta,
                turn_models,
                turn_cwd,
                root_models,
                settings,
                source_file,
                archived,
            );
            c.event_uid == sha256_hex(
                text(e.session_id) + text(e.thread_id) + text(e.turn_id) + text(e.timestamp_utc)
                    + spec_u64_to_le_bytes(e.usage.input_tokens) + spec_u64_to_le_bytes(
                    e.usage.cached_input_tokens,
                ) + spec_u64_to_le_bytes(e.usage.output_tokens) + spec_u64_to_le_bytes(
                    e.source_ordinal,
                ),
            )
        }),
{
    lemma_barred(e.session_id);
    lemma_barred(e.thread_id);
    lemma_barred(e.turn_id);
    lemma_barred(e.timestamp_utc);
}

proof fn lemma_barred(t: Option<Seq<char>>)
    ensures
        t is Some ==> crate::parser::barred(t) == encode_utf8(t->0).push(0x7c),
        t is None ==> crate::parser::barred(t) == seq![0x7cu8],
{
    if t is Some {
        assert(crate::parser::barred(t) =~= encode_utf8(t->0).push(0x7c));
    } else {
        assert(encode_utf8(Seq::<char>::empty()) =~= Seq::<u8>::empty());
        assert(crate::parser::barred(t) =~= seq![0x7cu8]);
    }
}

/// The counters change by what a line is and by nothing else: each line counts once; only a line that
/// cannot be read counts as a fault, and only legacy counts count as such.
pub proof fn law_counters_change_by_kind(contents: Seq<ContentView>, first: nat, c: ContentView)
    requires
        first + contents.len() < u64::MAX,
        !(c is Record),
        !(c is Count),
    ensures
        ({
            let a = all_steps(contents, first).counters;
            let b = all_steps(contents.push(c), first).counters;
            let faulty: int = if c is Fault || c is BadRecord || c is BadCount {
                1
            } else {
                0
            };
            let legacy: int = if c is EmptyCount || c is BadCount {
                1
            } else {
                0
            };
            &&& b.lines_total == a.lines_total + 1
            &&& b.lines_json_errors == a.lines_json_errors + faulty
            &&& b.legacy_token_count_events == a.legacy_token_count_events + legacy
            &&& b.legacy_null_info == a.legacy_null_info + (if c is EmptyCount {
                1int
            } else {
                0
            })
            &&& b.legacy_total_usage_present == a.legacy_total_usage_present
            &&& b.usage_records == a.usage_records
            &&& b.records_without_response_id == a.records_without_response_id
            &&& b.subset_violations == a.subset_violations
        }),
{
    lemma_one_more_line(contents, first, c);
    crate::parser::lemma_counts_within(contents, first);
}

/// The message of a legacy count that cannot be read names its line, too.
pub proof fn law_message_of_a_bad_count(contents: Seq<ContentView>, first: nat, e: Seq<char>)
    ensures
        all_steps(contents.push(ContentView::BadCount(e)), first).errors.last() == cut_message(
            "line "@ + decimal_of((first + contents.len()) as nat)
                + ": malformed token_count info: "@ + e,
        ),
{
    lemma_one_more_line(contents, first, ContentView::BadCount(e));
}

} // verus!
