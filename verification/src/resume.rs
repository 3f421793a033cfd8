//! Going on from a checkpoint reads what reading the whole file reads.

use vstd::prelude::*;

use crate::line::ContentView;
use crate::model::merged_roots;
use crate::model::no_meta;
use crate::model::EventView;
use crate::model::SourceFormat;
use crate::outside::json_fault;
use crate::outside::lossy_text;
use crate::parser::all_steps;
use crate::parser::lemma_line_end;
use crate::parser::line_end;
use crate::parser::reading;
use crate::parser::trimmed;
use crate::parser::Reading;

verus! {

/// Nothing but blanks and a line end stands between `at` and the end of its line.
pub open spec fn only_line_end(bytes: Seq<u8>, at: int) -> bool {
    at >= bytes.len() || trimmed(bytes.subrange(at, line_end(bytes, at))).len() == 0
}

proof fn lemma_line_end_kept(p: Seq<u8>, w: Seq<u8>, at: int)
    requires
        p.len() <= w.len(),
        p == w.take(p.len() as int),
        0 <= at < p.len(),
    ensures
        p[line_end(p, at) - 1] == 10 ==> line_end(w, at) == line_end(p, at),
        p[line_end(p, at) - 1] != 10 ==> line_end(p, at) == p.len() && line_end(w, at) == line_end(
            w,
            p.len() as int,
        ),
    decreases p.len() - at,
{
    assert(p[at] == w[at]);
    lemma_line_end(p, at);
    if p[at] == 10 {
        assert(line_end(p, at) == at + 1);
    } else if at + 1 < p.len() {
        lemma_line_end_kept(p, w, at + 1);
    } else {
        assert(line_end(p, at + 1) == p.len());
    }
}

proof fn lemma_trimmed_join(x: Seq<u8>, y: Seq<u8>)
    requires
        trimmed(y).len() == 0,
    ensures
        trimmed(x + y) == trimmed(x),
    decreases y.len(),
{
    if y.len() == 0 {
        assert(x + y =~= x);
    } else {
        assert((x + y).last() == y.last());
        assert((x + y).drop_last() =~= x + y.drop_last());
        lemma_trimmed_join(x, y.drop_last());
    }
}

/// Reading the beginning of a file and then, once it has grown, going on from the checkpoint
/// takes the same lines in the same order, and ends at the same place, as reading the grown file
/// at one go. Left out are files that go on behind a line that was taken without its line feed
/// with anything but blanks and a line end.
pub proof fn law_resume_reads_the_same(begun: Seq<u8>, grown: Seq<u8>, at: int, pending: bool)
    requires
        begun.len() <= grown.len(),
        begun == grown.take(begun.len() as int),
        0 <= at <= begun.len(),
        ({
            let a = reading(begun, at, pending);
            a.end == at || !a.pending || only_line_end(grown, a.end)
        }),
    ensures
        ({
            let a = reading(begun, at, pending);
            let b = reading(grown, a.end, a.pending);
            reading(grown, at, pending) == (Reading { contents: a.contents + b.contents, ..b })
        }),
    decreases begun.len() - at,
{
    let a = reading(begun, at, pending);
    let b = reading(grown, a.end, a.pending);
    if at >= begun.len() {
        assert(a.contents + b.contents =~= b.contents);
    } else {
        lemma_line_end(begun, at);
        lemma_line_end(grown, at);
        lemma_line_end_kept(begun, grown, at);
        let end = line_end(begun, at);
        let whole = begun[end - 1] == 10;
        let chunk = begun.subrange(at, end);
        let body = trimmed(chunk);
        if whole {
            assert(grown.subrange(at, end) =~= chunk);
            assert(grown[end - 1] == begun[end - 1]);
            let rest = reading(begun, end, false);
            lemma_reading_end(begun, end, false);
            assert(a.end == rest.end && a.pending == rest.pending);
            law_resume_reads_the_same(begun, grown, end, false);
            if pending && body.len() == 0 {
            } else {
                assert(a.contents + b.contents =~= seq![a.contents[0]] + (rest.contents + b.contents));
            }
        } else if a.end == at {
            lemma_reading_end(begun, end, true);
            assert(a.contents + b.contents =~= b.contents);
        } else {
            assert(end == begun.len());
            assert(reading(begun, end, true).end == end);
            assert(a.end == end && a.pending);
            let over = line_end(grown, at);
            assert(only_line_end(grown, end));
            if begun.len() == grown.len() {
                assert(grown =~= begun);
                assert(a.contents + b.contents =~= a.contents);
            } else {
                lemma_line_end(grown, end);
                let rest = grown.subrange(end, over);
                assert(grown.subrange(at, over) =~= chunk + rest);
                lemma_trimmed_join(chunk, rest);
                let next = reading(grown, over, grown[over - 1] != 10);
                assert(b == next);
                if pending && body.len() == 0 {
                    assert(a.contents + b.contents =~= b.contents);
                } else {
                    assert(a.contents + b.contents =~= seq![a.contents[0]] + next.contents);
                }
            }
        }
    }
}

/// Reading never goes back, nor beyond the end of the file.
pub proof fn lemma_reading_end(bytes: Seq<u8>, at: int, pending: bool)
    requires
        0 <= at,
    ensures
        at <= reading(bytes, at, pending).end,
        at <= bytes.len() ==> reading(bytes, at, pending).end <= bytes.len(),
        reading(bytes, at, pending).contents.len() <= reading(bytes, at, pending).end - at,
    decreases bytes.len() - at,
{
    if at < bytes.len() {
        lemma_line_end(bytes, at);
        let end = line_end(bytes, at);
        lemma_reading_end(bytes, end, bytes[end - 1] != 10);
    }
}

/// Reading stops at the end of the file, or before a last line that has no line feed and is not
/// JSON: such a line never moves the checkpoint, and is read again.
pub proof fn law_stops_only_before_a_partial_line(bytes: Seq<u8>, at: int, pending: bool)
    requires
        0 <= at <= bytes.len(),
    ensures
        ({
            let end = reading(bytes, at, pending).end;
            end < bytes.len() ==> {
                &&& line_end(bytes, end) == bytes.len()
                &&& bytes.last() != 10
                &&& json_fault(lossy_text(trimmed(bytes.skip(end)))) is Some
            }
        }),
    decreases bytes.len() - at,
{
    if at < bytes.len() {
        lemma_line_end(bytes, at);
        let end = line_end(bytes, at);
        assert(bytes =~= bytes.take(bytes.len() as int));
        lemma_line_end_kept(bytes, bytes, at);
        if bytes[end - 1] != 10 {
            assert(bytes.subrange(at, end) =~= bytes.skip(at));
        }
        law_stops_only_before_a_partial_line(bytes, end, bytes[end - 1] != 10);
    }
}

/// A legacy event without a session takes the one of the lines before the checkpoint.
pub open spec fn adopted(e: EventView, session_id: Option<Seq<char>>) -> EventView {
    if e.source_format == SourceFormat::LegacyTokenCount && e.session_id is None {
        EventView { session_id, ..e }
    } else {
        e
    }
}

/// The events of a stretch of a file, with the session of the lines before it.
pub open spec fn adopted_all(events: Seq<EventView>, session_id: Option<Seq<char>>) -> Seq<
    EventView,
> {
    events.map_values(|e: EventView| adopted(e, session_id))
}

/// Before its header a file has no session.
pub proof fn lemma_without_header(contents: Seq<ContentView>, first: nat)
    ensures
        ({
            let r = all_steps(contents, first);
            !r.meta_seen ==> r.meta == no_meta() && forall|j: int|
                0 <= j < r.raw_calls.len() && (#[trigger] r.raw_calls[j]).source_format
                    == SourceFormat::LegacyTokenCount ==> r.raw_calls[j].session_id is None
        }),
    decreases contents.len(),
{
    if contents.len() > 0 {
        lemma_without_header(contents.drop_last(), first);
    }
}

/// Reading a file in two stretches tells what reading it at one go tells: the same events under
/// the same numbers, the same models and directories of the turns, the same settings. Where
/// both stretches have a header, the header and the events are left out.
pub proof fn law_stretches_tell_the_whole(a: Seq<ContentView>, b: Seq<ContentView>, first: nat)
    ensures
        ({
            let x = all_steps(a, first);
            let y = all_steps(b, first + a.len());
            let whole = all_steps(a + b, first);
            &&& whole.turn_models == x.turn_models.union_prefer_right(y.turn_models)
            &&& whole.turn_cwd == x.turn_cwd.union_prefer_right(y.turn_cwd)
            &&& whole.root_models == merged_roots(x.root_models, y.root_models)
            &&& whole.thread_settings == x.thread_settings + y.thread_settings
            &&& whole.errors == x.errors + y.errors
            &&& whole.meta_seen == (x.meta_seen || y.meta_seen)
            &&& !(x.meta_seen && y.meta_seen) ==> {
                &&& whole.meta == if x.meta_seen {
                    x.meta
                } else {
                    y.meta
                }
                &&& whole.raw_calls == x.raw_calls + adopted_all(y.raw_calls, x.meta.session_id)
            }
        }),
    decreases b.len(),
{
    let x = all_steps(a, first);
    let y = all_steps(b, first + a.len());
    let whole = all_steps(a + b, first);
    lemma_without_header(a, first);
    if b.len() == 0 {
        assert(a + b =~= a);
        assert(x.turn_models.union_prefer_right(y.turn_models) =~= x.turn_models);
        assert(x.turn_cwd.union_prefer_right(y.turn_cwd) =~= x.turn_cwd);
        assert(merged_roots(x.root_models, y.root_models) =~= x.root_models);
        assert(x.thread_settings + y.thread_settings =~= x.thread_settings);
        assert(x.errors + y.errors =~= x.errors);
        assert(x.raw_calls + adopted_all(y.raw_calls, x.meta.session_id) =~= x.raw_calls);
    } else {
        let init = b.drop_last();
        law_stretches_tell_the_whole(a, init, first);
        lemma_without_header(init, first + a.len());
        assert((a + b).drop_last() =~= a + init);
        let p = all_steps(init, first + a.len());
        let w = all_steps(a + init, first);
        let c = b.last();
        assert((a + b).last() == c);
        let s = x.meta.session_id;
        assert(whole.turn_models =~= x.turn_models.union_prefer_right(y.turn_models));
        assert(whole.turn_cwd =~= x.turn_cwd.union_prefer_right(y.turn_cwd));
        assert(whole.root_models =~= merged_roots(x.root_models, y.root_models));
        assert(whole.thread_settings =~= x.thread_settings + y.thread_settings);
        assert(whole.errors =~= x.errors + y.errors);
        if !(x.meta_seen && y.meta_seen) {
            assert(whole.raw_calls =~= x.raw_calls + adopted_all(y.raw_calls, s));
        }
    }
}

/// Going on from a checkpoint, once a file has grown, gives together with what was read before
/// the very events, under the very numbers, of reading the grown file at one go.
pub proof fn law_resumed_events_are_those_of_the_whole(begun: Seq<u8>, grown: Seq<u8>)
    requires
        begun.len() <= grown.len(),
        begun == grown.take(begun.len() as int),
        ({
            let a = reading(begun, 0, false);
            let b = reading(grown, a.end, a.pending);
            let x = all_steps(a.contents, 0);
            let y = all_steps(b.contents, a.contents.len());
            &&& a.end == 0 || !a.pending || only_line_end(grown, a.end)
            &&& !(x.meta_seen && y.meta_seen)
        }),
    ensures
        ({
            let a = reading(begun, 0, false);
            let b = reading(grown, a.end, a.pending);
            let x = all_steps(a.contents, 0);
            let y = all_steps(b.contents, a.contents.len());
            let whole = all_steps(reading(grown, 0, false).contents, 0);
            whole.raw_calls == x.raw_calls + adopted_all(y.raw_calls, x.meta.session_id)
        }),
{
    let a = reading(begun, 0, false);
    let b = reading(grown, a.end, a.pending);
    law_resume_reads_the_same(begun, grown, 0, false);
    law_stretches_tell_the_whole(a.contents, b.contents, 0);
}

/// The usage records among events.
pub open spec fn records_in(events: Seq<EventView>) -> Seq<EventView>
    decreases events.len(),
{
    if events.len() == 0 {
        Seq::empty()
    } else {
        let init = records_in(events.drop_last());
        if events.last().source_format == SourceFormat::TokenUsageRecord {
            init.push(events.last())
        } else {
            init
        }
    }
}

proof fn lemma_records_push(events: Seq<EventView>, e: EventView)
    ensures
        records_in(events.push(e)) == if e.source_format == SourceFormat::TokenUsageRecord {
            records_in(events).push(e)
        } else {
            records_in(events)
        },
{
    assert(events.push(e).drop_last() =~= events);
}

/// The usage records of a file do not depend on its headers: wherever it is cut, those of the two
/// stretches are those of the whole, under the very numbers.
pub proof fn law_records_do_not_depend_on_headers(
    a: Seq<ContentView>,
    b: Seq<ContentView>,
    first: nat,
)
    ensures
        records_in(all_steps(a + b, first).raw_calls) == records_in(
            all_steps(a, first).raw_calls,
        ) + records_in(all_steps(b, first + a.len()).raw_calls),
    decreases b.len(),
{
    let x = records_in(all_steps(a, first).raw_calls);
    if b.len() == 0 {
        assert(a + b =~= a);
        assert(x =~= x + records_in(all_steps(b, first + a.len()).raw_calls));
    } else {
        let init = b.drop_last();
        assert((a + b).drop_last() =~= a + init);
        assert((a + b).last() == b.last());
        law_records_do_not_depend_on_headers(a, init, first);
        let p = all_steps(init, first + a.len()).raw_calls;
        let q = all_steps(a + init, first).raw_calls;
        let y = all_steps(b, first + a.len()).raw_calls;
        let w = all_steps(a + b, first).raw_calls;
        if y.len() > p.len() {
            assert(y =~= p.push(y.last()));
            assert(w =~= q.push(w.last()));
            lemma_records_push(p, y.last());
            lemma_records_push(q, w.last());
        } else {
            assert(y == p && w == q);
        }
        assert(records_in(w) =~= x + records_in(y));
    }
}

} // verus!
