//! Which fault of a line is told, and in which words.

use vstd::prelude::*;

use crate::frame::first_solid;
use crate::frame::frame_of;
use crate::frame::key_fault;
use crate::frame::key_name;
use crate::frame::line_from;
use crate::frame::nested_from;
use crate::frame::shape_of;
use crate::frame::told_of_frame;
use crate::frame::value_at;
use crate::frame::FrameView;
use crate::json;
use crate::line::count_in;
use crate::line::header_in;
use crate::line::record_in;
use crate::line::turn_in;
use crate::line::usage_in;
use crate::line::CountView;
use crate::line::RecordView;
use crate::line_laws::is_absent;
use crate::line_laws::is_object;
use crate::line_laws::lemma_member;
use crate::line_laws::stands_under;
use crate::model::TokenUsage;
use crate::outside::json_count;
use crate::outside::json_elements;
use crate::outside::json_front_fault;
use crate::outside::json_front_name;
use crate::outside::json_front_string;
use crate::outside::json_members;
use crate::outside::json_nested_fault;
use crate::outside::json_string;
use crate::outside::json_triple;
use crate::shape_laws::has_no_key;
use crate::shape_laws::is_first_of_its_name;
use crate::shape_laws::lemma_key_of;
use crate::shape_laws::lemma_no_fault_among_keys;
use crate::shape_laws::lemma_one_first;
use crate::shape_laws::may_be_text;
use crate::text::stands_at;

verus! {

/// What stands under a name is no count, for this reason.
pub open spec fn is_bad_count(
    members: Seq<(Seq<char>, Seq<char>)>,
    name: Seq<char>,
    e: Seq<char>,
) -> bool {
    exists|v: Seq<char>| #[trigger]
        stands_under(members, name, v) && json_count(v) == Err::<u64, Seq<char>>(e)
}

/// What stands under a name, where anything does, is a count.
pub open spec fn may_be_count(members: Seq<(Seq<char>, Seq<char>)>, name: Seq<char>) -> bool {
    forall|v: Seq<char>| #[trigger] stands_under(members, name, v) ==> json_count(v) is Ok
}

/// What stands under a name is no text, for this reason.
pub open spec fn is_bad_text(
    members: Seq<(Seq<char>, Seq<char>)>,
    name: Seq<char>,
    e: Seq<char>,
) -> bool {
    exists|v: Seq<char>| #[trigger]
        stands_under(members, name, v) && json_string(v) == Err::<Option<Seq<char>>, Seq<char>>(e)
}

proof fn lemma_first_told(
    members: Seq<(Seq<char>, Seq<char>)>,
    at: Seq<Option<Seq<char>>>,
    by_name: Seq<usize>,
    k: int,
)
    requires
        0 <= k < by_name.len(),
        forall|j: int| 0 <= j < k ==> at[(#[trigger] by_name[j]) as int] is None,
        at[by_name[k] as int] is Some,
    ensures
        json::PartsView::Named(members).fault(at, by_name) == at[by_name[k] as int],
{
    let faults = by_name.map_values(|place: usize| at[place as int]);
    assert forall|j: int| 0 <= j < k implies (#[trigger] faults[j]) is None by {
        assert(at[by_name[j] as int] is None);
    }
    lemma_first_of_faults(faults, k);
}

proof fn lemma_first_of_faults(faults: Seq<Option<Seq<char>>>, k: int)
    requires
        0 <= k < faults.len(),
        forall|j: int| 0 <= j < k ==> (#[trigger] faults[j]) is None,
        faults[k] is Some,
    ensures
        json::first_fault(faults) == faults[k],
    decreases k,
{
    if k > 0 {
        assert(faults[0] is None);
        let rest = faults.drop_first();
        assert forall|j: int| 0 <= j < k - 1 implies (#[trigger] rest[j]) is None by {
            assert(faults[j + 1] is None);
        }
        lemma_first_of_faults(rest, k - 1);
    }
}

proof fn lemma_count_part(members: Seq<(Seq<char>, Seq<char>)>, name: Seq<char>, place: int)
    ensures
        may_be_count(members, name) ==> json::fault_in(
            json::count_or_zero(json::PartsView::Named(members).part(name, place)),
        ) is None,
        forall|e: Seq<char>| #[trigger]
            is_bad_count(members, name, e) ==> json::fault_in(
                json::count_or_zero(json::PartsView::Named(members).part(name, place)),
            ) == Some(e),
{
    lemma_member(members, name);
}

proof fn lemma_text_fault(members: Seq<(Seq<char>, Seq<char>)>, name: Seq<char>, place: int)
    ensures
        may_be_text(members, name) ==> json::fault_in(
            json::optional_text(json::PartsView::Named(members).part(name, place)),
        ) is None,
        forall|e: Seq<char>| #[trigger]
            is_bad_text(members, name, e) ==> json::fault_in(
                json::optional_text(json::PartsView::Named(members).part(name, place)),
            ) == Some(e),
{
    lemma_member(members, name);
}

/// Of the counts of a usage that are no counts the first by name is told, as it is.
pub proof fn law_first_bad_count_is_told(
    value: Seq<char>,
    members: Seq<(Seq<char>, Seq<char>)>,
    k: int,
    e: Seq<char>,
)
    requires
        is_object(value, members),
        0 <= k < 6,
        ({
            let names = seq![
                "cache_write_input_tokens"@,
                "cached_input_tokens"@,
                "input_tokens"@,
                "output_tokens"@,
                "reasoning_output_tokens"@,
                "total_tokens"@,
            ];
            &&& forall|j: int| 0 <= j < k ==> may_be_count(members, #[trigger] names[j])
            &&& is_bad_count(members, names[k], e)
        }),
    ensures
        usage_in(value) == Err::<TokenUsage, Seq<char>>(e),
{
    let names = seq![
        "cache_write_input_tokens"@,
        "cached_input_tokens"@,
        "input_tokens"@,
        "output_tokens"@,
        "reasoning_output_tokens"@,
        "total_tokens"@,
    ];
    let p = json::PartsView::Named(members);
    lemma_count_part(members, names[0], 2);
    lemma_count_part(members, names[1], 1);
    lemma_count_part(members, names[2], 0);
    lemma_count_part(members, names[3], 3);
    lemma_count_part(members, names[4], 4);
    lemma_count_part(members, names[5], 5);
    let at = seq![
        json::fault_in(json::count_or_zero(p.part("input_tokens"@, 0))),
        json::fault_in(json::count_or_zero(p.part("cached_input_tokens"@, 1))),
        json::fault_in(json::count_or_zero(p.part("cache_write_input_tokens"@, 2))),
        json::fault_in(json::count_or_zero(p.part("output_tokens"@, 3))),
        json::fault_in(json::count_or_zero(p.part("reasoning_output_tokens"@, 4))),
        json::fault_in(json::count_or_zero(p.part("total_tokens"@, 5))),
    ];
    let by_name = seq![2usize, 1, 0, 3, 4, 5];
    assert forall|j: int| 0 <= j < k implies at[(#[trigger] by_name[j]) as int] is None by {
        assert(may_be_count(members, names[j]));
    }
    lemma_first_told(members, at, by_name, k);
}

/// Of the ids of a usage record that are no texts the first by name is told, as it is; then what is
/// wrong with its usage, or that it has none.
pub proof fn law_first_fault_of_a_record_is_told(
    timestamp_utc: Option<Seq<char>>,
    payload: Seq<char>,
    members: Seq<(Seq<char>, Seq<char>)>,
    k: int,
    e: Seq<char>,
    usage: Seq<char>,
)
    requires
        is_object(payload, members),
        0 <= k <= 5,
        ({
            let names = seq![
                "response_id"@,
                "root_turn_id"@,
                "session_id"@,
                "thread_id"@,
                "turn_id"@,
            ];
            &&& forall|j: int| 0 <= j < k ==> may_be_text(members, #[trigger] names[j])
            &&& k < 5 ==> is_bad_text(members, names[k], e)
            &&& k == 5 ==> (stands_under(members, "usage"@, usage) && usage_in(usage) == Err::<
                TokenUsage,
                Seq<char>,
            >(e)) || (is_absent(members, "usage"@) && e == "missing field `"@ + "usage"@ + "`"@)
        }),
    ensures
        record_in(timestamp_utc, payload) == Err::<RecordView, Seq<char>>(e),
{
    let names = seq!["response_id"@, "root_turn_id"@, "session_id"@, "thread_id"@, "turn_id"@];
    let p = json::PartsView::Named(members);
    lemma_text_fault(members, names[0], 4);
    lemma_text_fault(members, names[1], 3);
    lemma_text_fault(members, names[2], 0);
    lemma_text_fault(members, names[3], 1);
    lemma_text_fault(members, names[4], 2);
    lemma_member(members, "usage"@);
    let at = seq![
        json::fault_in(json::optional_text(p.part("session_id"@, 0))),
        json::fault_in(json::optional_text(p.part("thread_id"@, 1))),
        json::fault_in(json::optional_text(p.part("turn_id"@, 2))),
        json::fault_in(json::optional_text(p.part("root_turn_id"@, 3))),
        json::fault_in(json::optional_text(p.part("response_id"@, 4))),
        json::fault_in(crate::line::required_usage(p)),
    ];
    let by_name = seq![4usize, 3, 0, 1, 2, 5];
    assert forall|j: int| 0 <= j < k implies at[(#[trigger] by_name[j]) as int] is None by {
        assert(may_be_text(members, names[j]));
    }
    lemma_first_told(members, at, by_name, k);
}

/// A header, or the context of a turn, with a text that is none cannot be read.
pub proof fn law_bad_texts_spoil_header_and_turn(
    payload: Seq<char>,
    members: Seq<(Seq<char>, Seq<char>)>,
    e: Seq<char>,
)
    requires
        is_object(payload, members),
    ensures
        is_bad_text(members, "id"@, e) || is_bad_text(members, "cwd"@, e) || is_bad_text(
            members,
            "originator"@,
            e,
        ) || is_bad_text(members, "cli_version"@, e) ==> header_in(payload) is Err,
        is_bad_text(members, "model"@, e) || is_bad_text(members, "cwd"@, e) || is_bad_text(
            members,
            "root_turn_id"@,
            e,
        ) || is_bad_text(members, "turn_id"@, e) || is_absent(members, "turn_id"@) ==> turn_in(
            payload,
        ) is Err,
{
    if header_in(payload) is Ok {
        crate::line_laws::law_header_is_read_by_name(
            payload,
            members,
            header_in(payload)->Ok_0,
        );
    }
    if turn_in(payload) is Ok {
        crate::line_laws::law_turn_is_read_by_name(payload, members, turn_in(payload)->Ok_0);
    }
}

/// A legacy count tells what is wrong with its last usage first, then what is wrong with its total.
pub proof fn law_first_fault_of_a_legacy_count_is_told(
    timestamp_utc: Option<Seq<char>>,
    info: Seq<char>,
    members: Seq<(Seq<char>, Seq<char>)>,
    last: Seq<char>,
    total: Seq<char>,
    e: Seq<char>,
)
    requires
        is_object(info, members),
    ensures
        stands_under(members, "last_token_usage"@, last) && json_string(last) is Err && usage_in(
            last,
        ) == Err::<TokenUsage, Seq<char>>(e) ==> count_in(timestamp_utc, info) == Err::<
            CountView,
            Seq<char>,
        >(e),
        is_absent(members, "last_token_usage"@) && stands_under(
            members,
            "total_token_usage"@,
            total,
        ) && json_string(total) is Err && usage_in(total) == Err::<TokenUsage, Seq<char>>(e)
            ==> count_in(timestamp_utc, info) == Err::<CountView, Seq<char>>(e),
{
    let p = json::PartsView::Named(members);
    lemma_member(members, "last_token_usage"@);
    lemma_member(members, "total_token_usage"@);
    let at = seq![
        json::fault_in(crate::line::optional_usage(p.part("last_token_usage"@, 0))),
        json::fault_in(crate::line::optional_usage(p.part("total_token_usage"@, 1))),
    ];
    let by_name = seq![0usize, 1];
    if at[0] is Some {
        lemma_first_told(members, at, by_name, 0);
    } else if at[1] is Some {
        lemma_first_told(members, at, by_name, 1);
    }
}

/// A value that is neither an object nor a list is told by its own message, with what was expected
/// in place of what that message expects.
pub proof fn law_wrong_shape_is_told(value: Seq<char>, start: Seq<char>, f: Seq<char>)
    requires
        json_elements(value) is None,
        json_members(value) == Err::<Seq<(Seq<char>, Seq<char>)>, Seq<char>>(f),
    ensures
        json_string(value) == Err::<Option<Seq<char>>, Seq<char>>(start + "a string"@) ==> usage_in(
            value,
        ) == Err::<TokenUsage, Seq<char>>(start + "struct "@ + "TokenUsage"@),
        json_string(value) is Ok && json_count(value) == Err::<u64, Seq<char>>(start + "u64"@)
            ==> usage_in(value) == Err::<TokenUsage, Seq<char>>(
            start + "struct "@ + "TokenUsage"@,
        ),
{
    assert((start + "a string"@).take(start.len() as int) =~= start);
    assert((start + "u64"@).take(start.len() as int) =~= start);
}

/// The fault of a field of the frame: that it comes again, told where its key ends, or else what is
/// wrong with its value. What the line carries may also nest too deep.
pub proof fn law_fault_of_a_field(line: Seq<char>, j: int, name: Seq<char>, at: int)
    requires
        0 <= j < shape_of(line).keys.len(),
        key_name(line, shape_of(line).keys[j]) == Some(name),
        value_at(line, shape_of(line).keys[j]) == Some(at),
    ensures
        ({
            let fault = key_fault(line, shape_of(line).keys, j as nat);
            let first = is_first_of_its_name(line, name, j);
            let nested = json_nested_fault(nested_from(line, at));
            let deep = nested is Some && stands_at(nested->0, "recursion limit exceeded"@, 0);
            let field = name == "timestamp"@ || name == "type"@ || name == "payload"@;
            &&& field && !first ==> fault == Some(
                crate::frame::placed(
                    "duplicate field `"@ + name + "`"@,
                    line,
                    crate::frame::key_stop(line, shape_of(line).keys[j]),
                ),
            )
            &&& name == "payload"@ && first && deep ==> fault == nested
            &&& name == "payload"@ && first && !deep ==> fault == json_front_fault(
                line_from(line, at),
            )
            &&& name == "type"@ && first && json_front_name(line_from(line, at)) is Err ==> fault
                == Some(json_front_name(line_from(line, at))->Err_0)
            &&& name == "timestamp"@ && first && json_front_string(line_from(line, at)) is Err
                ==> fault == Some(json_front_string(line_from(line, at))->Err_0)
        }),
{
    reveal_strlit("type");
    reveal_strlit("timestamp");
    reveal_strlit("payload");
    assert("type"@.len() == 4 && "timestamp"@.len() == 9 && "payload"@.len() == 7);
    lemma_key_of(line, name, 0);
    if is_first_of_its_name(line, name, j) {
        lemma_one_first(line, name, j);
    }
}

/// The place that a message names is the number of bytes before it, in the first and only line.
pub proof fn law_place_counts_bytes(e: Seq<char>, line: Seq<char>, at: int)
    requires
        0 <= at <= line.len(),
    ensures
        crate::frame::placed(e, line, at) == e + " at line 1 column "@ + crate::text::decimal_of(
            vstd::utf8::encode_utf8(line.take(at)).len(),
        ),
        line_from(line, at).len() == vstd::utf8::encode_utf8(line.take(at)).len() + line.len() - at,
        line_from(line, at).skip(vstd::utf8::encode_utf8(line.take(at)).len() as int) == line.skip(
            at,
        ),
        forall|i: int|
            0 <= i < vstd::utf8::encode_utf8(line.take(at)).len() ==> #[trigger] line_from(
                line,
                at,
            )[i] == ' ',
{
    let n = vstd::utf8::encode_utf8(line.take(at)).len() as int;
    assert(line_from(line, at).skip(n) =~= line.skip(at));
}

/// An object that is sound but names no kind is told to lack it; one that names a kind but carries
/// nothing is told to lack that; both where the object ends.
pub proof fn law_missing_fields_are_told(
    line: Seq<char>,
    members: Seq<(Seq<char>, Seq<char>)>,
    j: int,
    at: int,
)
    requires
        first_solid(line, 0) < line.len(),
        line[first_solid(line, 0)] == '{',
        json_members(line) is Ok,
        json_members(line.take(shape_of(line).end as int)) == Ok::<
            Seq<(Seq<char>, Seq<char>)>,
            Seq<char>,
        >(members),
        forall|k: nat|
            k < shape_of(line).keys.len() ==> (#[trigger] key_fault(
                line,
                shape_of(line).keys,
                k,
            )) is None,
    ensures
        has_no_key(line, "type"@) ==> frame_of(line) == Err::<FrameView, Seq<char>>(
            crate::frame::placed("missing field `type`"@, line, shape_of(line).end as int),
        ),
        is_first_of_its_name(line, "type"@, j) && value_at(line, shape_of(line).keys[j]) == Some(at)
            && json_front_name(line_from(line, at)) is Ok && is_absent(members, "payload"@)
            ==> frame_of(line) == Err::<FrameView, Seq<char>>(
            crate::frame::placed("missing field `payload`"@, line, shape_of(line).end as int),
        ),
{
    lemma_no_fault_among_keys(line, 0);
    lemma_key_of(line, "type"@, 0);
    lemma_member(members, "payload"@);
    if is_first_of_its_name(line, "type"@, j) {
        lemma_one_first(line, "type"@, j);
    }
}

proof fn lemma_last_at(whole: Seq<char>, part: Seq<char>, from: nat, i: nat)
    requires
        stands_at(whole, part, i as int),
        i <= from,
        forall|j: int| i < j <= from ==> !#[trigger] stands_at(whole, part, j),
    ensures
        crate::frame::last_at(whole, part, from) == Some(i),
    decreases from,
{
    if i < from {
        assert(!stands_at(whole, part, from as int));
        lemma_last_at(whole, part, (from - 1) as nat, i);
    }
}

proof fn lemma_never_at(whole: Seq<char>, part: Seq<char>, from: nat)
    requires
        forall|j: int| !#[trigger] stands_at(whole, part, j),
    ensures
        crate::frame::last_at(whole, part, from) is None,
    decreases from,
{
    assert(!stands_at(whole, part, from as int));
    if from > 0 {
        lemma_never_at(whole, part, (from - 1) as nat);
    }
}

/// A message on a list of three is told of a line: where it last speaks of three values, it speaks
/// of the line. Any other message is told as it is.
pub proof fn law_messages_on_lists_speak_of_lines(
    head: Seq<char>,
    tail: Seq<char>,
    other: Seq<char>,
)
    requires
        stands_at(tail, " at line "@, 0),
        ({
            let e = head + "a tuple of size 3"@ + tail;
            forall|j: int|
                head.len() < j <= e.len() ==> !#[trigger] stands_at(
                    e,
                    "a tuple of size 3 at line "@,
                    j,
                )
        }),
        forall|j: int| !#[trigger] stands_at(other, "a tuple of size 3 at line "@, j),
    ensures
        told_of_frame(other) == other,
        ({
            let e = head + "a tuple of size 3"@ + tail;
            &&& !stands_at(head, "invalid length "@, 0) ==> told_of_frame(e) == head
                + "struct RolloutLine"@ + tail
            &&& stands_at(head, "invalid length "@, 0) && !stands_at(head, "invalid length 0,"@, 0)
                ==> told_of_frame(e) == head + "struct RolloutLine with 3 elements"@ + tail
        }),
{
    reveal_strlit("a tuple of size 3 at line ");
    reveal_strlit("a tuple of size 3");
    reveal_strlit(" at line ");
    reveal_strlit("invalid length 0,");
    reveal_strlit("invalid length ");
    let e = head + "a tuple of size 3"@ + tail;
    let n = head.len() as int;
    assert(tail.subrange(0, 9) == " at line "@);
    assert("a tuple of size 3 at line "@ =~= "a tuple of size 3"@ + " at line "@);
    assert(e.subrange(n, n + 26) =~= "a tuple of size 3"@ + tail.subrange(0, 9));
    assert(stands_at(e, "a tuple of size 3 at line "@, n));
    lemma_last_at(e, "a tuple of size 3 at line "@, e.len(), head.len());
    lemma_never_at(other, "a tuple of size 3 at line "@, other.len());
    assert(e.take(n) =~= head);
    assert(e.skip(n + 17) =~= tail);
    if !stands_at(head, "invalid length "@, 0) && stands_at(head, "invalid length 0,"@, 0) {
        assert(head.subrange(0, 15) =~= head.subrange(0, 17).subrange(0, 15));
        assert("invalid length 0,"@.subrange(0, 15) =~= "invalid length "@);
    }
}

/// A list that gives no frame is told by its own message, of a line.
pub proof fn law_fault_of_a_list_is_told(line: Seq<char>, e: Seq<char>)
    requires
        first_solid(line, 0) >= line.len() || line[first_solid(line, 0)] != '{',
        json_triple(line) == Err::<(Option<Seq<char>>, Seq<char>), Seq<char>>(e),
    ensures
        frame_of(line) == Err::<FrameView, Seq<char>>(told_of_frame(e)),
{
}

} // verus!
