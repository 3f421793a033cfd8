//! What the parts of a line are read into, name by name.

use vstd::prelude::*;

use crate::frame::FrameView;
use crate::json;
use crate::json::member;
use crate::line::content_of;
use crate::line::count_in;
use crate::line::framed_content;
use crate::line::header_in;
use crate::line::record_in;
use crate::line::turn_in;
use crate::line::usage_in;
use crate::line::ContentView;
use crate::line::CountView;
use crate::line::RecordView;
use crate::line::TurnView;
use crate::model::MetaView;
use crate::model::TokenUsage;
use crate::outside::json_count;
use crate::outside::json_elements;
use crate::outside::json_members;
use crate::outside::json_string;
use crate::text::has_part;

verus! {

/// The first member of this name has this value.
pub open spec fn stands_under(
    members: Seq<(Seq<char>, Seq<char>)>,
    name: Seq<char>,
    value: Seq<char>,
) -> bool {
    exists|i: int|
        0 <= i < members.len() && (#[trigger] members[i]).0 == name && members[i].1 == value && (
        forall|j: int| 0 <= j < i ==> (#[trigger] members[j]).0 != name)
}

/// No member has this name.
pub open spec fn is_absent(members: Seq<(Seq<char>, Seq<char>)>, name: Seq<char>) -> bool {
    forall|i: int| 0 <= i < members.len() ==> (#[trigger] members[i]).0 != name
}

/// The number of this name is `n`; a name that is absent counts as zero.
pub open spec fn is_number_under(
    members: Seq<(Seq<char>, Seq<char>)>,
    name: Seq<char>,
    n: u64,
) -> bool {
    &&& is_absent(members, name) ==> n == 0
    &&& forall|v: Seq<char>| #[trigger]
        stands_under(members, name, v) ==> json_count(v) == Ok::<u64, Seq<char>>(n)
}

/// The text of this name is `t`; there is none where the name is absent.
pub open spec fn is_text_under(
    members: Seq<(Seq<char>, Seq<char>)>,
    name: Seq<char>,
    t: Option<Seq<char>>,
) -> bool {
    &&& is_absent(members, name) ==> t is None
    &&& forall|v: Seq<char>| #[trigger]
        stands_under(members, name, v) ==> json_string(v) == Ok::<Option<Seq<char>>, Seq<char>>(t)
}

/// A value is an object with these members.
pub open spec fn is_object(value: Seq<char>, members: Seq<(Seq<char>, Seq<char>)>) -> bool {
    json_elements(value) is None && json_members(value) == Ok::<
        Seq<(Seq<char>, Seq<char>)>,
        Seq<char>,
    >(members)
}

/// Looking up a name finds the first member that has it.
pub proof fn lemma_member(members: Seq<(Seq<char>, Seq<char>)>, name: Seq<char>)
    ensures
        member(members, name) is None <==> is_absent(members, name),
        member(members, name) is Some ==> stands_under(
            members,
            name,
            member(members, name)->0,
        ),
        forall|v: Seq<char>| #[trigger]
            stands_under(members, name, v) ==> member(members, name) == Some(v),
    decreases members.len(),
{
    if members.len() > 0 {
        let rest = members.drop_first();
        lemma_member(rest, name);
        if members[0].0 == name {
            assert(stands_under(members, name, members[0].1));
            assert forall|v: Seq<char>| #[trigger] stands_under(members, name, v) implies member(
                members,
                name,
            ) == Some(v) by {
                let i = choose|i: int|
                    0 <= i < members.len() && (#[trigger] members[i]).0 == name && members[i].1 == v
                        && (forall|j: int| 0 <= j < i ==> (#[trigger] members[j]).0 != name);
                if i > 0 {
                    assert(members[0].0 != name);
                }
            }
        } else {
            if member(rest, name) is Some {
                let v = member(rest, name)->0;
                let i = choose|i: int|
                    0 <= i < rest.len() && (#[trigger] rest[i]).0 == name && rest[i].1 == v && (
                    forall|j: int| 0 <= j < i ==> (#[trigger] rest[j]).0 != name);
                assert(members[i + 1] == rest[i]);
                assert forall|j: int| 0 <= j < i + 1 implies (#[trigger] members[j]).0 != name by {
                    if j > 0 {
                        assert(members[j] == rest[j - 1]);
                    }
                }
                assert(stands_under(members, name, v));
            } else {
                assert forall|i: int| 0 <= i < members.len() implies (#[trigger] members[i]).0
                    != name by {
                    if i > 0 {
                        assert(members[i] == rest[i - 1]);
                    }
                }
            }
            assert forall|v: Seq<char>| #[trigger] stands_under(members, name, v) implies member(
                members,
                name,
            ) == Some(v) by {
                let i = choose|i: int|
                    0 <= i < members.len() && (#[trigger] members[i]).0 == name && members[i].1 == v
                        && (forall|j: int| 0 <= j < i ==> (#[trigger] members[j]).0 != name);
                assert(i > 0);
                assert(rest[i - 1] == members[i]);
                assert forall|j: int| 0 <= j < i - 1 implies (#[trigger] rest[j]).0 != name by {
                    assert(rest[j] == members[j + 1]);
                }
                assert(stands_under(rest, name, v));
            }
            if is_absent(members, name) {
                assert forall|i: int| 0 <= i < rest.len() implies (#[trigger] rest[i]).0 != name by {
                    assert(rest[i] == members[i + 1]);
                }
            }
        }
    }
}

/// A usage is what an object of token counts says: each count is the number of its own name.
pub open spec fn is_usage_of(members: Seq<(Seq<char>, Seq<char>)>, u: TokenUsage) -> bool {
    &&& is_number_under(members, "input_tokens"@, u.input_tokens)
    &&& is_number_under(members, "cached_input_tokens"@, u.cached_input_tokens)
    &&& is_number_under(members, "cache_write_input_tokens"@, u.cache_write_input_tokens)
    &&& is_number_under(members, "output_tokens"@, u.output_tokens)
    &&& is_number_under(members, "reasoning_output_tokens"@, u.reasoning_output_tokens)
    &&& is_number_under(members, "total_tokens"@, u.total_tokens)
}

proof fn lemma_no_fault_left(p: json::PartsView, at: Seq<Option<Seq<char>>>, by_name: Seq<usize>)
    requires
        p.fault(at, by_name) is None,
        forall|i: int| 0 <= i < by_name.len() ==> (#[trigger] by_name[i]) < at.len(),
    ensures
        forall|i: int| 0 <= i < by_name.len() ==> at[(#[trigger] by_name[i]) as int] is None,
{
    match p {
        json::PartsView::Named(members) => {
            let faults = by_name.map_values(|place: usize| at[place as int]);
            json::lemma_no_fault(faults);
            assert forall|i: int| 0 <= i < by_name.len() implies at[(
            #[trigger] by_name[i]) as int] is None by {
                assert(faults[i] == at[by_name[i] as int]);
            }
        },
        json::PartsView::Listed(list) => {
            let all = at.push(json::excess(list.len(), at.len()));
            json::lemma_no_fault(all);
            assert forall|i: int| 0 <= i < by_name.len() implies at[(
            #[trigger] by_name[i]) as int] is None by {
                assert(all[by_name[i] as int] == at[by_name[i] as int]);
            }
        },
    }
}

/// The counts of an object are each the number under its own name, or zero where the name is
/// absent: none is lost, and none takes the place of another.
pub proof fn law_usage_is_read_by_name(
    value: Seq<char>,
    members: Seq<(Seq<char>, Seq<char>)>,
    u: TokenUsage,
)
    requires
        is_object(value, members),
        usage_in(value) == Ok::<TokenUsage, Seq<char>>(u),
    ensures
        is_usage_of(members, u),
{
    let p = json::parts_of(value, "TokenUsage"@)->Ok_0;
    let a = json::count_or_zero(p.part("input_tokens"@, 0));
    let b = json::count_or_zero(p.part("cached_input_tokens"@, 1));
    let c = json::count_or_zero(p.part("cache_write_input_tokens"@, 2));
    let d = json::count_or_zero(p.part("output_tokens"@, 3));
    let e = json::count_or_zero(p.part("reasoning_output_tokens"@, 4));
    let f = json::count_or_zero(p.part("total_tokens"@, 5));
    let at = seq![
        json::fault_in(a),
        json::fault_in(b),
        json::fault_in(c),
        json::fault_in(d),
        json::fault_in(e),
        json::fault_in(f),
    ];
    let by_name = seq![2usize, 1, 0, 3, 4, 5];
    lemma_no_fault_left(p, at, by_name);
    assert(by_name[0] == 2 && by_name[1] == 1 && by_name[2] == 0 && by_name[3] == 3 && by_name[4]
        == 4 && by_name[5] == 5);
    lemma_member(members, "input_tokens"@);
    lemma_member(members, "cached_input_tokens"@);
    lemma_member(members, "cache_write_input_tokens"@);
    lemma_member(members, "output_tokens"@);
    lemma_member(members, "reasoning_output_tokens"@);
    lemma_member(members, "total_tokens"@);
}

/// Token counts that are all numbers, where they are there, are read.
pub proof fn law_numbers_make_a_usage(value: Seq<char>, members: Seq<(Seq<char>, Seq<char>)>)
    requires
        is_object(value, members),
        forall|i: int|
            0 <= i < members.len() ==> json_count((#[trigger] members[i]).1) is Ok,
    ensures
        usage_in(value) is Ok,
{
    lemma_member(members, "input_tokens"@);
    lemma_member(members, "cached_input_tokens"@);
    lemma_member(members, "cache_write_input_tokens"@);
    lemma_member(members, "output_tokens"@);
    lemma_member(members, "reasoning_output_tokens"@);
    lemma_member(members, "total_tokens"@);
    let p = json::parts_of(value, "TokenUsage"@)->Ok_0;
    assert forall|name: Seq<char>, place: int| json::count_or_zero(
        #[trigger] p.part(name, place),
    ) is Ok by {
        lemma_member(members, name);
    }
    let none: Option<Seq<char>> = None;
    let at = seq![none, none, none, none, none, none];
    let by_name = seq![2usize, 1, 0, 3, 4, 5];
    lemma_faultless(by_name.map_values(|place: usize| at[place as int]));
    let a = json::fault_in(json::count_or_zero(p.part("input_tokens"@, 0)));
    let b = json::fault_in(json::count_or_zero(p.part("cached_input_tokens"@, 1)));
    let c = json::fault_in(json::count_or_zero(p.part("cache_write_input_tokens"@, 2)));
    let d = json::fault_in(json::count_or_zero(p.part("output_tokens"@, 3)));
    let e = json::fault_in(json::count_or_zero(p.part("reasoning_output_tokens"@, 4)));
    let f = json::fault_in(json::count_or_zero(p.part("total_tokens"@, 5)));
    assert(seq![a, b, c, d, e, f] =~= at);
}

/// Where no part has a fault, there is no first one.
pub proof fn lemma_faultless(faults: Seq<Option<Seq<char>>>)
    requires
        forall|i: int| 0 <= i < faults.len() ==> (#[trigger] faults[i]) is None,
    ensures
        json::first_fault(faults) is None,
    decreases faults.len(),
{
    if faults.len() > 0 {
        let rest = faults.drop_first();
        assert forall|i: int| 0 <= i < rest.len() implies (#[trigger] rest[i]) is None by {
            assert(rest[i] == faults[i + 1]);
        }
        lemma_faultless(rest);
    }
}

/// Token counts that a list gives are its elements in their order; those that it leaves out are
/// zero, and it holds no more than there are counts.
pub proof fn law_usage_is_read_by_place(value: Seq<char>, list: Seq<Seq<char>>, u: TokenUsage)
    requires
        json_elements(value) == Some(list),
        usage_in(value) == Ok::<TokenUsage, Seq<char>>(u),
    ensures
        list.len() <= 6,
        ({
            let counts = seq![
                u.input_tokens,
                u.cached_input_tokens,
                u.cache_write_input_tokens,
                u.output_tokens,
                u.reasoning_output_tokens,
                u.total_tokens,
            ];
            forall|k: int|
                0 <= k < 6 ==> if k < list.len() {
                    json_count(list[k]) == Ok::<u64, Seq<char>>(#[trigger] counts[k])
                } else {
                    counts[k] == 0
                }
        }),
{
    let p = json::parts_of(value, "TokenUsage"@)->Ok_0;
    let a = json::count_or_zero(p.part("input_tokens"@, 0));
    let b = json::count_or_zero(p.part("cached_input_tokens"@, 1));
    let c = json::count_or_zero(p.part("cache_write_input_tokens"@, 2));
    let d = json::count_or_zero(p.part("output_tokens"@, 3));
    let e = json::count_or_zero(p.part("reasoning_output_tokens"@, 4));
    let f = json::count_or_zero(p.part("total_tokens"@, 5));
    let at = seq![
        json::fault_in(a),
        json::fault_in(b),
        json::fault_in(c),
        json::fault_in(d),
        json::fault_in(e),
        json::fault_in(f),
    ];
    let all = at.push(json::excess(list.len(), 6));
    json::lemma_no_fault(all);
    assert(all[0] == at[0] && all[1] == at[1] && all[2] == at[2] && all[3] == at[3] && all[4]
        == at[4] && all[5] == at[5]);
    assert(all[6] == json::excess(list.len(), 6));
}

/// A legacy count tells the usage of the last call, count by count as the object under
/// `last_token_usage` holds it, at the time of its line; it tells no usage where that is absent or
/// `null`. Of the running total it tells only whether there is one.
pub proof fn law_legacy_count_is_the_last_usage(
    timestamp_utc: Option<Seq<char>>,
    info: Seq<char>,
    members: Seq<(Seq<char>, Seq<char>)>,
    c: CountView,
)
    requires
        is_object(info, members),
        count_in(timestamp_utc, info) == Ok::<CountView, Seq<char>>(c),
    ensures
        c.timestamp_utc == timestamp_utc,
        is_absent(members, "last_token_usage"@) ==> c.last is None,
        is_absent(members, "total_token_usage"@) ==> !c.total_present,
        forall|v: Seq<char>| #[trigger]
            stands_under(members, "last_token_usage"@, v) ==> (c.last is None <==> json_string(v)
                == Ok::<Option<Seq<char>>, Seq<char>>(None)),
        forall|v: Seq<char>, inner: Seq<(Seq<char>, Seq<char>)>|
            stands_under(members, "last_token_usage"@, v) && c.last is Some && #[trigger] is_object(
                v,
                inner,
            ) ==> is_usage_of(inner, c.last->0),
        forall|v: Seq<char>| #[trigger]
            stands_under(members, "total_token_usage"@, v) ==> (c.total_present <==> json_string(v)
                != Ok::<Option<Seq<char>>, Seq<char>>(None)),
{
    let p = json::parts_of(info, "LegacyInfo"@)->Ok_0;
    let last = crate::line::optional_usage(p.part("last_token_usage"@, 0));
    let total = crate::line::optional_usage(p.part("total_token_usage"@, 1));
    let at = seq![json::fault_in(last), json::fault_in(total)];
    let by_name = seq![0usize, 1];
    lemma_no_fault_left(p, at, by_name);
    assert(by_name[0] == 0 && by_name[1] == 1);
    lemma_member(members, "last_token_usage"@);
    lemma_member(members, "total_token_usage"@);
    assert forall|v: Seq<char>, inner: Seq<(Seq<char>, Seq<char>)>|
        stands_under(members, "last_token_usage"@, v) && c.last is Some && #[trigger] is_object(
            v,
            inner,
        ) implies is_usage_of(inner, c.last->0) by {
        law_usage_is_read_by_name(v, inner, c.last->0);
    }
}

/// A usage record tells each of its ids as the text under its own name, its usage count by count,
/// and the time of its line.
pub proof fn law_record_is_read_by_name(
    timestamp_utc: Option<Seq<char>>,
    payload: Seq<char>,
    members: Seq<(Seq<char>, Seq<char>)>,
    r: RecordView,
)
    requires
        is_object(payload, members),
        record_in(timestamp_utc, payload) == Ok::<RecordView, Seq<char>>(r),
    ensures
        r.timestamp_utc == timestamp_utc,
        is_text_under(members, "session_id"@, r.session_id),
        is_text_under(members, "thread_id"@, r.thread_id),
        is_text_under(members, "turn_id"@, r.turn_id),
        is_text_under(members, "root_turn_id"@, r.root_turn_id),
        is_text_under(members, "response_id"@, r.response_id),
        !is_absent(members, "usage"@),
        forall|v: Seq<char>, inner: Seq<(Seq<char>, Seq<char>)>|
            stands_under(members, "usage"@, v) && #[trigger] is_object(v, inner) ==> is_usage_of(
                inner,
                r.usage,
            ),
{
    let p = json::parts_of(payload, "TokenUsageRecordPayload"@)->Ok_0;
    let a = json::optional_text(p.part("session_id"@, 0));
    let b = json::optional_text(p.part("thread_id"@, 1));
    let c = json::optional_text(p.part("turn_id"@, 2));
    let d = json::optional_text(p.part("root_turn_id"@, 3));
    let e = json::optional_text(p.part("response_id"@, 4));
    let f = crate::line::required_usage(p);
    let at = seq![
        json::fault_in(a),
        json::fault_in(b),
        json::fault_in(c),
        json::fault_in(d),
        json::fault_in(e),
        json::fault_in(f),
    ];
    let by_name = seq![4usize, 3, 0, 1, 2, 5];
    lemma_no_fault_left(p, at, by_name);
    assert(by_name[0] == 4 && by_name[1] == 3 && by_name[2] == 0 && by_name[3] == 1 && by_name[4]
        == 2 && by_name[5] == 5);
    lemma_member(members, "session_id"@);
    lemma_member(members, "thread_id"@);
    lemma_member(members, "turn_id"@);
    lemma_member(members, "root_turn_id"@);
    lemma_member(members, "response_id"@);
    lemma_member(members, "usage"@);
    assert forall|v: Seq<char>, inner: Seq<(Seq<char>, Seq<char>)>|
        stands_under(members, "usage"@, v) && #[trigger] is_object(v, inner) implies is_usage_of(
        inner,
        r.usage,
    ) by {
        law_usage_is_read_by_name(v, inner, r.usage);
    }
}

/// A header tells the session under `id`, and each other text under its own name.
pub proof fn law_header_is_read_by_name(
    payload: Seq<char>,
    members: Seq<(Seq<char>, Seq<char>)>,
    m: MetaView,
)
    requires
        is_object(payload, members),
        header_in(payload) == Ok::<MetaView, Seq<char>>(m),
    ensures
        is_text_under(members, "id"@, m.session_id),
        is_text_under(members, "cwd"@, m.cwd),
        is_text_under(members, "originator"@, m.originator),
        is_text_under(members, "cli_version"@, m.cli_version),
{
    let p = json::parts_of(payload, "SessionMetaPayload"@)->Ok_0;
    let a = json::optional_text(p.part("id"@, 0));
    let b = json::optional_text(p.part("cwd"@, 1));
    let c = json::optional_text(p.part("originator"@, 2));
    let d = json::optional_text(p.part("cli_version"@, 3));
    let at = seq![json::fault_in(a), json::fault_in(b), json::fault_in(c), json::fault_in(d)];
    let by_name = seq![3usize, 1, 0, 2];
    lemma_no_fault_left(p, at, by_name);
    assert(by_name[0] == 3 && by_name[1] == 1 && by_name[2] == 0 && by_name[3] == 2);
    lemma_member(members, "id"@);
    lemma_member(members, "cwd"@);
    lemma_member(members, "originator"@);
    lemma_member(members, "cli_version"@);
}

/// The context of a turn tells its turn, its model, its directory and its root, each as the text
/// under its own name.
pub proof fn law_turn_is_read_by_name(
    payload: Seq<char>,
    members: Seq<(Seq<char>, Seq<char>)>,
    t: TurnView,
)
    requires
        is_object(payload, members),
        turn_in(payload) == Ok::<TurnView, Seq<char>>(t),
    ensures
        !is_absent(members, "turn_id"@),
        is_text_under(members, "turn_id"@, Some(t.turn_id)),
        is_text_under(members, "model"@, t.model),
        is_text_under(members, "cwd"@, t.cwd),
        is_text_under(members, "root_turn_id"@, t.root_turn_id),
{
    let p = json::parts_of(payload, "TurnContextPayload"@)->Ok_0;
    let a = json::required_text(
        p.part("turn_id"@, 0),
        json::missing_part(p, "turn_id"@, 0, 4, "TurnContextPayload"@),
    );
    let b = json::optional_text(p.part("model"@, 1));
    let c = json::optional_text(p.part("cwd"@, 2));
    let d = json::optional_text(p.part("root_turn_id"@, 3));
    let at = seq![json::fault_in(a), json::fault_in(b), json::fault_in(c), json::fault_in(d)];
    let by_name = seq![2usize, 1, 3, 0];
    lemma_no_fault_left(p, at, by_name);
    assert(by_name[0] == 2 && by_name[1] == 1 && by_name[2] == 3 && by_name[3] == 0);
    lemma_member(members, "turn_id"@);
    lemma_member(members, "model"@);
    lemma_member(members, "cwd"@);
    lemma_member(members, "root_turn_id"@);
}

/// The kinds of lines are told apart.
proof fn lemma_kinds_differ()
    ensures
        "session_meta"@ != "turn_context"@,
        "session_meta"@ != "token_usage_record"@,
        "session_meta"@ != "event_msg"@,
        "turn_context"@ != "token_usage_record"@,
        "turn_context"@ != "event_msg"@,
        "token_usage_record"@ != "event_msg"@,
        "token_count"@ != "thread_settings_applied"@,
{
    reveal_strlit("session_meta");
    reveal_strlit("turn_context");
    reveal_strlit("token_usage_record");
    reveal_strlit("event_msg");
    reveal_strlit("token_count");
    reveal_strlit("thread_settings_applied");
    assert("session_meta"@[0] != "turn_context"@[0]);
    assert("session_meta"@.len() == 12 && "token_usage_record"@.len() == 18 && "event_msg"@.len()
        == 9 && "turn_context"@.len() == 12);
    assert("token_count"@.len() == 11 && "thread_settings_applied"@.len() == 23);
}

/// A line is read as its kind says: a usage record, a turn and a header from their payloads, and a
/// line of another kind as nothing.
pub proof fn law_line_is_read_by_its_kind(f: FrameView)
    ensures
        f.kind == "token_usage_record"@ ==> match record_in(f.timestamp, f.payload) {
            Ok(r) => framed_content(f) == ContentView::Record(r),
            Err(e) => framed_content(f) == ContentView::BadRecord(e),
        },
        f.kind == "turn_context"@ ==> match turn_in(f.payload) {
            Ok(t) => framed_content(f) == ContentView::Turn(t),
            Err(e) => framed_content(f) is Other,
        },
        f.kind == "session_meta"@ ==> match header_in(f.payload) {
            Ok(m) => framed_content(f) == ContentView::Header(Some(m)),
            Err(e) => framed_content(f) == ContentView::Header(None),
        },
        framed_content(f) is Record || framed_content(f) is BadRecord ==> f.kind
            == "token_usage_record"@,
        framed_content(f) is Turn ==> f.kind == "turn_context"@,
        framed_content(f) is Header ==> f.kind == "session_meta"@,
        framed_content(f) is Count || framed_content(f) is EmptyCount || framed_content(
            f,
        ) is BadCount || framed_content(f) is Settings ==> f.kind == "event_msg"@,
{
    lemma_kinds_differ();
}

/// An event message of the type `token_count` tells what its information holds, and nothing where
/// that is absent or `null`.
pub proof fn law_token_count_tells_its_information(
    f: FrameView,
    members: Seq<(Seq<char>, Seq<char>)>,
    kind: Seq<char>,
)
    requires
        f.kind == "event_msg"@,
        json_members(f.payload) == Ok::<Seq<(Seq<char>, Seq<char>)>, Seq<char>>(members),
        stands_under(members, "type"@, kind),
        json_string(kind) == Ok::<Option<Seq<char>>, Seq<char>>(Some("token_count"@)),
    ensures
        is_absent(members, "info"@) ==> framed_content(f) is EmptyCount,
        forall|info: Seq<char>| #[trigger]
            stands_under(members, "info"@, info) ==> if json_string(info) == Ok::<
                Option<Seq<char>>,
                Seq<char>,
            >(None) {
                framed_content(f) is EmptyCount
            } else {
                match count_in(f.timestamp, info) {
                    Ok(c) => framed_content(f) == ContentView::Count(c),
                    Err(e) => framed_content(f) == ContentView::BadCount(e),
                }
            },
{
    lemma_kinds_differ();
    lemma_member(members, "type"@);
    lemma_member(members, "info"@);
}

/// An event message of the type `thread_settings_applied` tells the tier that its settings name, of
/// the thread that it names, at the time of its line.
pub proof fn law_settings_tell_thread_tier_and_time(
    f: FrameView,
    members: Seq<(Seq<char>, Seq<char>)>,
    kind: Seq<char>,
    thread: Seq<char>,
    settings: Seq<char>,
    inner: Seq<(Seq<char>, Seq<char>)>,
    tier: Seq<char>,
    thread_id: Seq<char>,
    service_tier: Seq<char>,
)
    requires
        f.kind == "event_msg"@,
        json_members(f.payload) == Ok::<Seq<(Seq<char>, Seq<char>)>, Seq<char>>(members),
        stands_under(members, "type"@, kind),
        json_string(kind) == Ok::<Option<Seq<char>>, Seq<char>>(Some("thread_settings_applied"@)),
        stands_under(members, "thread_id"@, thread),
        json_string(thread) == Ok::<Option<Seq<char>>, Seq<char>>(Some(thread_id)),
        stands_under(members, "thread_settings"@, settings),
        json_members(settings) == Ok::<Seq<(Seq<char>, Seq<char>)>, Seq<char>>(inner),
        stands_under(inner, "service_tier"@, tier),
        json_string(tier) == Ok::<Option<Seq<char>>, Seq<char>>(Some(service_tier)),
    ensures
        framed_content(f) is Settings,
        framed_content(f)->Settings_0.thread_id == thread_id,
        framed_content(f)->Settings_0.service_tier == service_tier,
        f.timestamp is Some ==> framed_content(f)->Settings_0.applied_ts == f.timestamp->0,
        f.timestamp is None ==> framed_content(f)->Settings_0.applied_ts.len() == 0,
{
    lemma_kinds_differ();
    lemma_member(members, "type"@);
    lemma_member(members, "thread_id"@);
    lemma_member(members, "thread_settings"@);
    lemma_member(inner, "service_tier"@);
}

/// A line that names one of the things that are counted is read in its frame, and its fault is told;
/// a line that names none of them says nothing, whatever it is.
pub proof fn law_lines_of_interest_are_read(line: Seq<char>)
    ensures
        ({
            let named = has_part(line, "\"token_usage_record\""@) || has_part(
                line,
                "\"turn_context\""@,
            ) || has_part(line, "\"token_count\""@) || has_part(line, "\"session_meta\""@)
                || has_part(line, "\"thread_settings_applied\""@);
            if named {
                match crate::frame::frame_of(line) {
                    Ok(f) => content_of(line) == framed_content(f),
                    Err(e) => content_of(line) == ContentView::Fault(e),
                }
            } else {
                content_of(line) is Other
            }
        }),
{
    reveal(content_of);
}

} // verus!
