//! When the parts of a line are read, whether named or listed, and what frames a line.

use vstd::prelude::*;

use crate::frame::first_solid;
use crate::frame::frame_of;
use crate::frame::key_name;
use crate::frame::line_from;
use crate::frame::plain_step;
use crate::frame::quoted_step;
use crate::frame::shape_of;
use crate::frame::FrameView;
use crate::frame::Walk;
use crate::json;
use crate::line::count_in;
use crate::line::header_in;
use crate::line::record_in;
use crate::line::turn_in;
use crate::line::usage_in;
use crate::line::CountView;
use crate::line::RecordView;
use crate::line::TurnView;
use crate::line_laws::is_absent;
use crate::line_laws::is_object;
use crate::line_laws::lemma_faultless;
use crate::line_laws::lemma_member;
use crate::line_laws::stands_under;
use crate::model::MetaView;
use crate::outside::json_elements;
use crate::outside::json_fault;
use crate::outside::json_front_name;
use crate::outside::json_front_string;
use crate::outside::json_members;
use crate::outside::json_string;
use crate::outside::json_triple;
use crate::state::parent_in;

verus! {

/// What stands under a name, where anything does, is a text or `null`.
pub open spec fn may_be_text(members: Seq<(Seq<char>, Seq<char>)>, name: Seq<char>) -> bool {
    forall|v: Seq<char>| #[trigger] stands_under(members, name, v) ==> json_string(v) is Ok
}

/// An element of a list, where there is one, is this text; where there is none, there is no text.
pub open spec fn is_text_at(list: Seq<Seq<char>>, place: int, t: Option<Seq<char>>) -> bool {
    &&& place < list.len() ==> json_string(list[place]) == Ok::<Option<Seq<char>>, Seq<char>>(t)
    &&& place >= list.len() ==> t is None
}

proof fn lemma_named_without_fault(
    members: Seq<(Seq<char>, Seq<char>)>,
    at: Seq<Option<Seq<char>>>,
    by_name: Seq<usize>,
)
    requires
        forall|i: int| 0 <= i < at.len() ==> (#[trigger] at[i]) is None,
        forall|i: int| 0 <= i < by_name.len() ==> (#[trigger] by_name[i]) < at.len(),
    ensures
        json::PartsView::Named(members).fault(at, by_name) is None,
{
    let faults = by_name.map_values(|place: usize| at[place as int]);
    assert forall|i: int| 0 <= i < faults.len() implies (#[trigger] faults[i]) is None by {
        assert(by_name[i] < at.len());
        assert(at[by_name[i] as int] is None);
    }
    lemma_faultless(faults);
}

proof fn lemma_text_part(members: Seq<(Seq<char>, Seq<char>)>, name: Seq<char>, place: int)
    requires
        may_be_text(members, name),
    ensures
        json::fault_in(
            json::optional_text(json::PartsView::Named(members).part(name, place)),
        ) is None,
{
    lemma_member(members, name);
}

/// A usage record whose ids are texts, `null` or absent, and whose usage can be read, is read.
pub proof fn law_sound_record_is_read(
    timestamp_utc: Option<Seq<char>>,
    payload: Seq<char>,
    members: Seq<(Seq<char>, Seq<char>)>,
    usage: Seq<char>,
)
    requires
        is_object(payload, members),
        may_be_text(members, "session_id"@),
        may_be_text(members, "thread_id"@),
        may_be_text(members, "turn_id"@),
        may_be_text(members, "root_turn_id"@),
        may_be_text(members, "response_id"@),
        stands_under(members, "usage"@, usage),
        usage_in(usage) is Ok,
    ensures
        record_in(timestamp_utc, payload) is Ok,
        record_in(timestamp_utc, payload)->Ok_0.usage == usage_in(usage)->Ok_0,
{
    let p = json::PartsView::Named(members);
    lemma_text_part(members, "session_id"@, 0);
    lemma_text_part(members, "thread_id"@, 1);
    lemma_text_part(members, "turn_id"@, 2);
    lemma_text_part(members, "root_turn_id"@, 3);
    lemma_text_part(members, "response_id"@, 4);
    lemma_member(members, "usage"@);
    let at = seq![
        json::fault_in(json::optional_text(p.part("session_id"@, 0))),
        json::fault_in(json::optional_text(p.part("thread_id"@, 1))),
        json::fault_in(json::optional_text(p.part("turn_id"@, 2))),
        json::fault_in(json::optional_text(p.part("root_turn_id"@, 3))),
        json::fault_in(json::optional_text(p.part("response_id"@, 4))),
        json::fault_in(crate::line::required_usage(p)),
    ];
    lemma_named_without_fault(members, at, seq![4usize, 3, 0, 1, 2, 5]);
}

/// A usage record without a usage is none.
pub proof fn law_record_needs_its_usage(
    timestamp_utc: Option<Seq<char>>,
    payload: Seq<char>,
    members: Seq<(Seq<char>, Seq<char>)>,
)
    requires
        is_object(payload, members),
        is_absent(members, "usage"@),
    ensures
        record_in(timestamp_utc, payload) is Err,
{
    if record_in(timestamp_utc, payload) is Ok {
        crate::line_laws::law_record_is_read_by_name(
            timestamp_utc,
            payload,
            members,
            record_in(timestamp_utc, payload)->Ok_0,
        );
    }
}

/// A header whose texts are texts, `null` or absent is read.
pub proof fn law_sound_header_is_read(payload: Seq<char>, members: Seq<(Seq<char>, Seq<char>)>)
    requires
        is_object(payload, members),
        may_be_text(members, "id"@),
        may_be_text(members, "cwd"@),
        may_be_text(members, "originator"@),
        may_be_text(members, "cli_version"@),
    ensures
        header_in(payload) is Ok,
{
    let p = json::PartsView::Named(members);
    lemma_text_part(members, "id"@, 0);
    lemma_text_part(members, "cwd"@, 1);
    lemma_text_part(members, "originator"@, 2);
    lemma_text_part(members, "cli_version"@, 3);
    let at = seq![
        json::fault_in(json::optional_text(p.part("id"@, 0))),
        json::fault_in(json::optional_text(p.part("cwd"@, 1))),
        json::fault_in(json::optional_text(p.part("originator"@, 2))),
        json::fault_in(json::optional_text(p.part("cli_version"@, 3))),
    ];
    lemma_named_without_fault(members, at, seq![3usize, 1, 0, 2]);
}

/// The context of a turn that names its turn, its other texts being texts, `null` or absent, is
/// read.
pub proof fn law_sound_turn_is_read(
    payload: Seq<char>,
    members: Seq<(Seq<char>, Seq<char>)>,
    turn: Seq<char>,
)
    requires
        is_object(payload, members),
        stands_under(members, "turn_id"@, turn),
        json_string(turn) is Ok && json_string(turn)->Ok_0 is Some,
        may_be_text(members, "model"@),
        may_be_text(members, "cwd"@),
        may_be_text(members, "root_turn_id"@),
    ensures
        turn_in(payload) is Ok,
{
    let p = json::PartsView::Named(members);
    lemma_member(members, "turn_id"@);
    lemma_text_part(members, "model"@, 1);
    lemma_text_part(members, "cwd"@, 2);
    lemma_text_part(members, "root_turn_id"@, 3);
    let at = seq![
        json::fault_in(
            json::required_text(
                p.part("turn_id"@, 0),
                json::missing_part(p, "turn_id"@, 0, 4, "TurnContextPayload"@),
            ),
        ),
        json::fault_in(json::optional_text(p.part("model"@, 1))),
        json::fault_in(json::optional_text(p.part("cwd"@, 2))),
        json::fault_in(json::optional_text(p.part("root_turn_id"@, 3))),
    ];
    lemma_named_without_fault(members, at, seq![2usize, 1, 3, 0]);
}

/// What stands under a name, where anything does, is a usage or `null`.
pub open spec fn may_be_usage(members: Seq<(Seq<char>, Seq<char>)>, name: Seq<char>) -> bool {
    forall|v: Seq<char>| #[trigger]
        stands_under(members, name, v) ==> usage_in(v) is Ok || json_string(v) == Ok::<
            Option<Seq<char>>,
            Seq<char>,
        >(None)
}

/// A legacy count whose usages are usages, `null` or absent is read; its usage is the last one,
/// whether that is named or listed.
pub proof fn law_sound_legacy_count_is_read(
    timestamp_utc: Option<Seq<char>>,
    info: Seq<char>,
    members: Seq<(Seq<char>, Seq<char>)>,
    last: Seq<char>,
)
    requires
        is_object(info, members),
        may_be_usage(members, "last_token_usage"@),
        may_be_usage(members, "total_token_usage"@),
    ensures
        count_in(timestamp_utc, info) is Ok,
        stands_under(members, "last_token_usage"@, last) && json_string(last) != Ok::<
            Option<Seq<char>>,
            Seq<char>,
        >(None) ==> usage_in(last) is Ok && count_in(timestamp_utc, info)->Ok_0.last == Some(
            usage_in(last)->Ok_0,
        ),
{
    let p = json::PartsView::Named(members);
    lemma_member(members, "last_token_usage"@);
    lemma_member(members, "total_token_usage"@);
    let at = seq![
        json::fault_in(crate::line::optional_usage(p.part("last_token_usage"@, 0))),
        json::fault_in(crate::line::optional_usage(p.part("total_token_usage"@, 1))),
    ];
    lemma_named_without_fault(members, at, seq![0usize, 1]);
}

/// A listed usage record gives its ids and its usage in their order.
pub proof fn law_record_is_read_by_place(
    timestamp_utc: Option<Seq<char>>,
    payload: Seq<char>,
    list: Seq<Seq<char>>,
    r: RecordView,
)
    requires
        json_elements(payload) == Some(list),
        record_in(timestamp_utc, payload) == Ok::<RecordView, Seq<char>>(r),
    ensures
        list.len() == 6,
        r.timestamp_utc == timestamp_utc,
        is_text_at(list, 0, r.session_id),
        is_text_at(list, 1, r.thread_id),
        is_text_at(list, 2, r.turn_id),
        is_text_at(list, 3, r.root_turn_id),
        is_text_at(list, 4, r.response_id),
        usage_in(list[5]) == Ok::<crate::model::TokenUsage, Seq<char>>(r.usage),
{
    let p = json::PartsView::Listed(list);
    let at = seq![
        json::fault_in(json::optional_text(p.part("session_id"@, 0))),
        json::fault_in(json::optional_text(p.part("thread_id"@, 1))),
        json::fault_in(json::optional_text(p.part("turn_id"@, 2))),
        json::fault_in(json::optional_text(p.part("root_turn_id"@, 3))),
        json::fault_in(json::optional_text(p.part("response_id"@, 4))),
        json::fault_in(crate::line::required_usage(p)),
    ];
    let all = at.push(json::excess(list.len(), 6));
    json::lemma_no_fault(all);
    assert(all[0] == at[0] && all[1] == at[1] && all[2] == at[2] && all[3] == at[3] && all[4]
        == at[4] && all[5] == at[5]);
    assert(all[6] == json::excess(list.len(), 6));
}

/// A listed header gives its texts in their order.
pub proof fn law_header_is_read_by_place(payload: Seq<char>, list: Seq<Seq<char>>, m: MetaView)
    requires
        json_elements(payload) == Some(list),
        header_in(payload) == Ok::<MetaView, Seq<char>>(m),
    ensures
        list.len() <= 4,
        is_text_at(list, 0, m.session_id),
        is_text_at(list, 1, m.cwd),
        is_text_at(list, 2, m.originator),
        is_text_at(list, 3, m.cli_version),
{
    let p = json::PartsView::Listed(list);
    let at = seq![
        json::fault_in(json::optional_text(p.part("id"@, 0))),
        json::fault_in(json::optional_text(p.part("cwd"@, 1))),
        json::fault_in(json::optional_text(p.part("originator"@, 2))),
        json::fault_in(json::optional_text(p.part("cli_version"@, 3))),
    ];
    let all = at.push(json::excess(list.len(), 4));
    json::lemma_no_fault(all);
    assert(all[0] == at[0] && all[1] == at[1] && all[2] == at[2] && all[3] == at[3]);
    assert(all[4] == json::excess(list.len(), 4));
}

/// The listed context of a turn gives its turn, its model, its directory and its root in this order.
pub proof fn law_turn_is_read_by_place(payload: Seq<char>, list: Seq<Seq<char>>, t: TurnView)
    requires
        json_elements(payload) == Some(list),
        turn_in(payload) == Ok::<TurnView, Seq<char>>(t),
    ensures
        1 <= list.len() <= 4,
        is_text_at(list, 0, Some(t.turn_id)),
        is_text_at(list, 1, t.model),
        is_text_at(list, 2, t.cwd),
        is_text_at(list, 3, t.root_turn_id),
{
    let p = json::PartsView::Listed(list);
    let at = seq![
        json::fault_in(
            json::required_text(
                p.part("turn_id"@, 0),
                json::missing_part(p, "turn_id"@, 0, 4, "TurnContextPayload"@),
            ),
        ),
        json::fault_in(json::optional_text(p.part("model"@, 1))),
        json::fault_in(json::optional_text(p.part("cwd"@, 2))),
        json::fault_in(json::optional_text(p.part("root_turn_id"@, 3))),
    ];
    let all = at.push(json::excess(list.len(), 4));
    json::lemma_no_fault(all);
    assert(all[0] == at[0] && all[1] == at[1] && all[2] == at[2] && all[3] == at[3]);
    assert(all[4] == json::excess(list.len(), 4));
}

/// A listed legacy count gives the last usage first and the running total second.
pub proof fn law_legacy_count_is_read_by_place(
    timestamp_utc: Option<Seq<char>>,
    info: Seq<char>,
    list: Seq<Seq<char>>,
    c: CountView,
)
    requires
        json_elements(info) == Some(list),
        count_in(timestamp_utc, info) == Ok::<CountView, Seq<char>>(c),
    ensures
        list.len() <= 2,
        c.timestamp_utc == timestamp_utc,
        list.len() == 0 ==> c.last is None,
        list.len() > 0 ==> if json_string(list[0]) == Ok::<Option<Seq<char>>, Seq<char>>(None) {
            c.last is None
        } else {
            c.last is Some && usage_in(list[0]) == Ok::<crate::model::TokenUsage, Seq<char>>(
                c.last->0,
            )
        },
        c.total_present <==> list.len() > 1 && json_string(list[1]) != Ok::<
            Option<Seq<char>>,
            Seq<char>,
        >(None),
{
    let p = json::PartsView::Listed(list);
    let at = seq![
        json::fault_in(crate::line::optional_usage(p.part("last_token_usage"@, 0))),
        json::fault_in(crate::line::optional_usage(p.part("total_token_usage"@, 1))),
    ];
    let all = at.push(json::excess(list.len(), 2));
    json::lemma_no_fault(all);
    assert(all[0] == at[0] && all[1] == at[1]);
    assert(all[2] == json::excess(list.len(), 2));
}

/// The parent of a thread is the text under `parent_thread_id`, within `thread_spawn`, within
/// `subagent`; a source that is not JSON, or lacks one of these, names none.
pub proof fn law_parent_is_the_one_that_spawned(
    source: Seq<char>,
    members: Seq<(Seq<char>, Seq<char>)>,
    agent: Seq<char>,
    inner: Seq<(Seq<char>, Seq<char>)>,
    spawn: Seq<char>,
    innermost: Seq<(Seq<char>, Seq<char>)>,
    parent: Seq<char>,
    id: Seq<char>,
)
    requires
        json_members(source) == Ok::<Seq<(Seq<char>, Seq<char>)>, Seq<char>>(members),
        json_members(agent) == Ok::<Seq<(Seq<char>, Seq<char>)>, Seq<char>>(inner),
        json_members(spawn) == Ok::<Seq<(Seq<char>, Seq<char>)>, Seq<char>>(innermost),
        json_string(parent) == Ok::<Option<Seq<char>>, Seq<char>>(Some(id)),
    ensures
        json_fault(source) is Some ==> parent_in(source) is None,
        is_absent(members, "subagent"@) ==> parent_in(source) is None,
        stands_under(members, "subagent"@, agent) && is_absent(inner, "thread_spawn"@)
            ==> parent_in(source) is None,
        stands_under(members, "subagent"@, agent) && stands_under(inner, "thread_spawn"@, spawn)
            && is_absent(innermost, "parent_thread_id"@) ==> parent_in(source) is None,
        json_fault(source) is None && stands_under(members, "subagent"@, agent) && stands_under(
            inner,
            "thread_spawn"@,
            spawn,
        ) && stands_under(innermost, "parent_thread_id"@, parent) ==> parent_in(source) == Some(id),
{
    lemma_member(members, "subagent"@);
    lemma_member(inner, "thread_spawn"@);
    lemma_member(innermost, "parent_thread_id"@);
}

/// Within a string only its closing quote counts: brackets and commas there change neither the
/// depth nor the end, and no quote behind a backslash closes it.
pub proof fn law_strings_hide_their_letters(w: Walk, i: usize, c: char)
    ensures
        quoted_step(w, i, c).depth == w.depth,
        quoted_step(w, i, c).shape.end == w.shape.end,
        quoted_step(w, i, c).start == w.start,
        quoted_step(w, i, c).quoted == w.quoted || (c == '"' && !w.escaped),
        !w.escaped && c == '"' ==> !quoted_step(w, i, c).quoted,
        w.escaped || c != '"' ==> quoted_step(w, i, c).shape == w.shape,
        quoted_step(w, i, c).escaped <==> !w.escaped && c == '\\',
        !w.escaped && c == '"' && w.depth == 1 && w.keyed ==> quoted_step(w, i, c).shape.keys
            == w.shape.keys.push((w.start, (i + 1) as usize)),
        !(w.depth == 1 && w.keyed) ==> quoted_step(w, i, c).shape == w.shape,
{
}

/// Outside of strings brackets nest: an opening one goes one level down, a closing one goes one
/// level up, and the one that closes the outermost level ends the value.
pub proof fn law_brackets_nest(w: Walk, i: usize, c: char)
    requires
        w.shape.end == 0,
        w.depth < usize::MAX,
        i < usize::MAX,
    ensures
        c == '{' || c == '[' ==> plain_step(w, i, c).depth == w.depth + 1,
        (c == '}' || c == ']') && w.depth > 0 ==> plain_step(w, i, c).depth == w.depth - 1,
        (c == '}' || c == ']') && w.depth == 1 ==> plain_step(w, i, c).shape.end == i + 1,
        !((c == '}' || c == ']') && w.depth == 1) ==> plain_step(w, i, c).shape == w.shape,
        c == '"' ==> plain_step(w, i, c).quoted && plain_step(w, i, c).start == i,
        c != '"' ==> plain_step(w, i, c).quoted == w.quoted,
        c == '{' && w.depth == 0 ==> plain_step(w, i, c).keyed,
        c == '[' && w.depth == 0 ==> !plain_step(w, i, c).keyed,
        c == ',' && w.depth == 1 ==> plain_step(w, i, c).keyed,
        plain_step(w, i, c).shape.keys == w.shape.keys,
{
}

/// The key number `j` of a line is the first of its name.
pub open spec fn is_first_of_its_name(line: Seq<char>, name: Seq<char>, j: int) -> bool {
    let keys = shape_of(line).keys;
    &&& 0 <= j < keys.len()
    &&& key_name(line, keys[j]) == Some(name)
    &&& forall|k: int| 0 <= k < j ==> key_name(line, #[trigger] keys[k]) != Some(name)
}

/// No key of a line has this name.
pub open spec fn has_no_key(line: Seq<char>, name: Seq<char>) -> bool {
    let keys = shape_of(line).keys;
    forall|k: int| 0 <= k < keys.len() ==> key_name(line, #[trigger] keys[k]) != Some(name)
}

/// Looking up a name finds the first key that has it.
pub proof fn lemma_key_of(line: Seq<char>, name: Seq<char>, from: nat)
    requires
        forall|k: int|
            0 <= k < from && k < shape_of(line).keys.len() ==> key_name(
                line,
                #[trigger] shape_of(line).keys[k],
            ) != Some(name),
    ensures
        match crate::frame::key_of(line, shape_of(line).keys, name, from) {
            Some(j) => is_first_of_its_name(line, name, j as int) && j >= from,
            None => has_no_key(line, name),
        },
    decreases shape_of(line).keys.len() - from,
{
    let keys = shape_of(line).keys;
    if from < keys.len() && key_name(line, keys[from as int]) != Some(name) {
        lemma_key_of(line, name, from + 1);
    }
}

proof fn lemma_no_key_fault(line: Seq<char>, j: nat, k: int)
    requires
        crate::frame::named_fault(line, shape_of(line).keys, j) is None,
        j <= k < shape_of(line).keys.len(),
    ensures
        crate::frame::key_fault(line, shape_of(line).keys, k as nat) is None,
    decreases k - j,
{
    if j < k {
        lemma_no_key_fault(line, j + 1, k);
    }
}

/// A line that is an object gives a frame only where it is JSON throughout and names a kind and a
/// payload; no field of the frame comes twice. The kind and the time are the texts behind the colons
/// of the keys `type` and `timestamp`, and the payload is the value under `payload`.
pub proof fn law_frame_of_an_object(line: Seq<char>, f: FrameView, j: int, k: int, at: int)
    requires
        first_solid(line, 0) < line.len(),
        line[first_solid(line, 0)] == '{',
        frame_of(line) == Ok::<FrameView, Seq<char>>(f),
    ensures
        json_members(line) is Ok,
        !has_no_key(line, "type"@),
        ({
            let front = json_members(line.take(shape_of(line).end as int));
            front is Ok && stands_under(front->Ok_0, "payload"@, f.payload)
        }),
        has_no_key(line, "timestamp"@) ==> f.timestamp is None,
        is_first_of_its_name(line, "type"@, j) && crate::frame::value_at(
            line,
            shape_of(line).keys[j],
        ) == Some(at) ==> json_front_name(line_from(line, at)) == Ok::<Seq<char>, Seq<char>>(f.kind),
        is_first_of_its_name(line, "timestamp"@, j) && crate::frame::value_at(
            line,
            shape_of(line).keys[j],
        ) == Some(at) ==> json_front_string(line_from(line, at)) == Ok::<
            Option<Seq<char>>,
            Seq<char>,
        >(f.timestamp),
        0 <= j < k < shape_of(line).keys.len() ==> ({
            let (a, b) = (
                key_name(line, shape_of(line).keys[j]),
                key_name(line, shape_of(line).keys[k]),
            );
            !(a == b && (a == Some("timestamp"@) || a == Some("type"@) || a == Some("payload"@)))
        }),
{
    let keys = shape_of(line).keys;
    lemma_key_of(line, "type"@, 0);
    lemma_key_of(line, "timestamp"@, 0);
    lemma_key_of(line, "payload"@, 0);
    let front = json_members(line.take(shape_of(line).end as int));
    lemma_member(front->Ok_0, "payload"@);
    reveal_strlit("type");
    reveal_strlit("timestamp");
    reveal_strlit("payload");
    assert("type"@.len() == 4 && "timestamp"@.len() == 9 && "payload"@.len() == 7);
    if is_first_of_its_name(line, "type"@, j) {
        lemma_one_first(line, "type"@, j);
        lemma_no_key_fault(line, 0, j);
    }
    if is_first_of_its_name(line, "timestamp"@, j) {
        lemma_one_first(line, "timestamp"@, j);
        lemma_no_key_fault(line, 0, j);
    }
    if 0 <= j < k < keys.len() {
        let (a, b) = (key_name(line, keys[j]), key_name(line, keys[k]));
        if a == b && (a == Some("timestamp"@) || a == Some("type"@) || a == Some("payload"@)) {
            lemma_no_key_fault(line, 0, k);
            let name = a->0;
            lemma_key_of(line, name, 0);
            assert(crate::frame::key_of(line, keys, name, 0) == Some(k as nat));
            assert(key_name(line, keys[j]) != Some(name));
        }
    }
}

/// The first key of a name is the one that looking it up finds.
pub proof fn lemma_one_first(line: Seq<char>, name: Seq<char>, j: int)
    requires
        is_first_of_its_name(line, name, j),
    ensures
        crate::frame::key_of(line, shape_of(line).keys, name, 0) == Some(j as nat),
{
    lemma_key_of(line, name, 0);
    let keys = shape_of(line).keys;
    let found = crate::frame::key_of(line, keys, name, 0);
    if found is None {
        assert(key_name(line, keys[j]) != Some(name));
    } else {
        let i = found->0 as int;
        if i < j {
            assert(key_name(line, keys[i]) != Some(name));
        } else if j < i {
            assert(key_name(line, keys[j]) != Some(name));
        }
    }
}

/// A line that is no object gives a frame only where it is a list of three: its time, its kind and
/// its payload.
pub proof fn law_frame_of_a_list(line: Seq<char>, f: FrameView)
    requires
        first_solid(line, 0) >= line.len() || line[first_solid(line, 0)] != '{',
    ensures
        frame_of(line) is Ok <==> json_triple(line) is Ok,
        frame_of(line) == Ok::<FrameView, Seq<char>>(f) ==> json_triple(line) == Ok::<
            (Option<Seq<char>>, Seq<char>),
            Seq<char>,
        >((f.timestamp, f.kind)) && f.payload == json_elements(line)->0[2],
{
}

/// Where no key has a fault, an object that is JSON has none.
pub proof fn lemma_no_fault_among_keys(line: Seq<char>, j: nat)
    requires
        json_members(line) is Ok,
        forall|k: nat|
            k < shape_of(line).keys.len() ==> (#[trigger] crate::frame::key_fault(
                line,
                shape_of(line).keys,
                k,
            )) is None,
    ensures
        crate::frame::named_fault(line, shape_of(line).keys, j) is None,
    decreases shape_of(line).keys.len() - j,
{
    let keys = shape_of(line).keys;
    if j < keys.len() {
        assert(crate::frame::key_fault(line, keys, j) is None);
        lemma_no_fault_among_keys(line, j + 1);
    }
}

/// An object that is JSON gives a frame where no key of a field has a fault, a kind is named and a
/// payload is there.
pub proof fn law_sound_object_gives_a_frame(line: Seq<char>, at: int, j: int, payload: Seq<char>)
    requires
        first_solid(line, 0) < line.len(),
        line[first_solid(line, 0)] == '{',
        json_members(line) is Ok,
        forall|k: nat|
            k < shape_of(line).keys.len() ==> (#[trigger] crate::frame::key_fault(
                line,
                shape_of(line).keys,
                k,
            )) is None,
        is_first_of_its_name(line, "type"@, j),
        crate::frame::value_at(line, shape_of(line).keys[j]) == Some(at),
        json_front_name(line_from(line, at)) is Ok,
        json_members(line.take(shape_of(line).end as int)) is Ok,
        stands_under(json_members(line.take(shape_of(line).end as int))->Ok_0, "payload"@, payload),
    ensures
        frame_of(line) is Ok,
        frame_of(line)->Ok_0.payload == payload,
{
    lemma_no_fault_among_keys(line, 0);
    lemma_one_first(line, "type"@, j);
    lemma_member(json_members(line.take(shape_of(line).end as int))->Ok_0, "payload"@);
}

/// A key has no fault if and only if it is no field of the frame, or the first of its name with a
/// value of the right kind, or one without a colon.
pub proof fn law_fault_of_a_key(line: Seq<char>, j: int, name: Seq<char>, at: int)
    requires
        0 <= j < shape_of(line).keys.len(),
        key_name(line, shape_of(line).keys[j]) == Some(name),
        crate::frame::value_at(line, shape_of(line).keys[j]) == Some(at),
    ensures
        ({
            let fault = crate::frame::key_fault(line, shape_of(line).keys, j as nat);
            let first = is_first_of_its_name(line, name, j);
            &&& name != "timestamp"@ && name != "type"@ && name != "payload"@ ==> fault is None
            &&& name == "timestamp"@ ==> (fault is None <==> first && json_front_string(
                line_from(line, at),
            ) is Ok)
            &&& name == "type"@ ==> (fault is None <==> first && json_front_name(
                line_from(line, at),
            ) is Ok)
            &&& name == "payload"@ && fault is None ==> first
        }),
{
    reveal_strlit("type");
    reveal_strlit("timestamp");
    reveal_strlit("payload");
    assert("type"@.len() == 4 && "timestamp"@.len() == 9 && "payload"@.len() == 7);
    lemma_key_of(line, name, 0);
    if is_first_of_its_name(line, name, j) {
        lemma_one_first(line, name, j);
    }
}

} // verus!
