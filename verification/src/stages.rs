//! What a file tells as it grows, and what its checkpoint says of it.

use vstd::prelude::*;

use crate::growth::lemma_legacy_session;
use crate::growth::lemma_lines_counted;
use crate::growth::lemma_records_add_up;
use crate::import::file_context;
use crate::import::file_events;
use crate::import::file_reading;
use crate::import::file_start;
use crate::import::with_changed_file;
use crate::import::FileInput;
use crate::import::Progress;
use crate::line::ContentView;
use crate::model::no_meta;
use crate::model::no_result;
use crate::model::ResultView;
use crate::model::SourceFormat;
use crate::parser::all_steps;
use crate::parser::lemma_line_end;
use crate::parser::line_end;
use crate::parser::reading;
use crate::parser::step;
use crate::parser::FileContentView;
use crate::resume::adopted_all;
use crate::resume::law_resume_reads_the_same;
use crate::resume::law_stretches_tell_the_whole;
use crate::resume::lemma_reading_end;
use crate::resume::lemma_without_header;
use crate::resume::only_line_end;
use crate::scan_laws::lemma_records_are_counted;
use crate::store::StoreView;

verus! {

/// What the bytes of a file tell.
#[verifier::opaque]
pub open spec fn told_by(bytes: Seq<u8>) -> ResultView {
    all_steps(reading(bytes, 0, false).contents, 0)
}

/// The session that a header names.
pub open spec fn header_session(c: ContentView) -> Option<Seq<char>> {
    match c {
        ContentView::Header(Some(m)) => m.session_id,
        _ => None,
    }
}

/// All headers among the lines name the same session, or none does.
#[verifier::opaque]
pub open spec fn headers_agree(contents: Seq<ContentView>) -> bool {
    forall|i: int|
        0 <= i < contents.len() && (#[trigger] contents[i]) is Header ==> header_session(
            contents[i],
        ) == all_steps(contents, 0).meta.session_id
}

/// A header among the lines names this session.
#[verifier::opaque]
pub open spec fn names_session(contents: Seq<ContentView>, session: Seq<char>) -> bool {
    exists|i: int|
        0 <= i < contents.len() && (#[trigger] contents[i]) is Header && header_session(contents[i])
            == Some(session)
}

/// The headers of the file do not agree, and one of them names this session.
pub open spec fn is_loose_in(bytes: Seq<u8>, session: Seq<char>) -> bool {
    let lines = reading(bytes, 0, false).contents;
    !headers_agree(lines) && names_session(lines, session)
}

/// The session of lines is one that a header among them names.
proof fn lemma_session_is_named(contents: Seq<ContentView>, first: nat)
    ensures
        ({
            let session = all_steps(contents, first).meta.session_id;
            session is Some ==> names_session(contents, session->0)
        }),
    decreases contents.len(),
{
    if contents.len() > 0 {
        let init = contents.drop_last();
        lemma_session_is_named(init, first);
        lemma_without_header(init, first);
        reveal(names_session);
        let session = all_steps(contents, first).meta.session_id;
        assert(contents[contents.len() - 1] == contents.last());
        if session is Some && session == all_steps(init, first).meta.session_id {
            let i = choose|i: int|
                0 <= i < init.len() && (#[trigger] init[i]) is Header && header_session(init[i])
                    == session;
            assert(contents[i] == init[i]);
        }
    }
}

/// What a part of the lines names, they all name.
proof fn lemma_named_in_part(a: Seq<ContentView>, b: Seq<ContentView>, session: Seq<char>)
    requires
        names_session(a, session) || names_session(b, session),
    ensures
        names_session(a + b, session),
{
    reveal(names_session);
    if names_session(a, session) {
        let i = choose|i: int|
            0 <= i < a.len() && (#[trigger] a[i]) is Header && header_session(a[i]) == Some(
                session,
            );
        assert((a + b)[i] == a[i]);
    } else {
        let i = choose|i: int|
            0 <= i < b.len() && (#[trigger] b[i]) is Header && header_session(b[i]) == Some(
                session,
            );
        assert((a + b)[a.len() + i] == b[i]);
    }
}

/// The file has no legacy event.
pub open spec fn only_records(bytes: Seq<u8>) -> bool {
    forall|j: int|
        0 <= j < told_by(bytes).raw_calls.len() ==> (
        #[trigger] told_by(bytes).raw_calls[j]).source_format == SourceFormat::TokenUsageRecord
}

/// What a file tells does not depend on where it is cut: it has no legacy events, or its headers
/// agree.
pub open spec fn is_steady(bytes: Seq<u8>) -> bool {
    only_records(bytes) || headers_agree(reading(bytes, 0, false).contents)
}

/// A file has grown from `a` to `b`: it goes on where it ended, and a line that was taken without
/// its line feed goes on with nothing but blanks and a line end.
pub open spec fn is_grown(a: Seq<u8>, b: Seq<u8>) -> bool {
    &&& a.len() <= b.len() <= u64::MAX
    &&& a == b.take(a.len() as int)
    &&& ({
        let r = reading(a, 0, false);
        r.end == 0 || !r.pending || only_line_end(b, r.end)
    })
}

/// What the header of lines says does not depend on how they are numbered.
proof fn lemma_header_kept(contents: Seq<ContentView>, first: nat)
    ensures
        all_steps(contents, first).meta == all_steps(contents, 0).meta,
        all_steps(contents, first).meta_seen == all_steps(contents, 0).meta_seen,
    decreases contents.len(),
{
    if contents.len() > 0 {
        lemma_header_kept(contents.drop_last(), first);
    }
}

/// A header is seen.
proof fn lemma_header_seen(contents: Seq<ContentView>, first: nat, i: int)
    requires
        0 <= i < contents.len(),
        contents[i] is Header,
    ensures
        all_steps(contents, first).meta_seen,
    decreases contents.len(),
{
    let init = contents.drop_last();
    if i < init.len() {
        assert(init[i] == contents[i]);
        lemma_header_seen(init, first, i);
    }
}

/// The beginning of lines whose headers agree.
proof fn lemma_headers_agree_before(contents: Seq<ContentView>)
    requires
        headers_agree(contents),
        contents.len() > 0,
    ensures
        headers_agree(contents.drop_last()),
{
    reveal(headers_agree);
    let init = contents.drop_last();
    assert forall|i: int|
        0 <= i < init.len() && (#[trigger] init[i]) is Header implies header_session(init[i])
        == all_steps(init, 0).meta.session_id by {
        assert(contents[i] == init[i]);
        lemma_header_seen(init, 0, i);
    }
}

/// What is known of the headers of two stretches and of the whole.
spec fn sessions_fit(x: ResultView, y: ResultView, w: ResultView) -> bool {
    &&& w.meta_seen == (x.meta_seen || y.meta_seen)
    &&& !x.meta_seen ==> x.meta.session_id is None && w.meta.session_id == y.meta.session_id
    &&& !y.meta_seen ==> y.meta.session_id is None && w.meta.session_id == x.meta.session_id
    &&& x.meta_seen ==> w.meta.session_id == x.meta.session_id
    &&& y.meta_seen ==> w.meta.session_id == y.meta.session_id
}

/// One more line of two stretches whose headers agree.
proof fn lemma_agreeing_line(
    x: ResultView,
    p: ResultView,
    q: ResultView,
    ordinal: nat,
    c: ContentView,
)
    requires
        sessions_fit(x, p, q),
        q.raw_calls == x.raw_calls + adopted_all(p.raw_calls, x.meta.session_id),
        c is Header && !p.meta_seen ==> header_session(c) == step(q, ordinal, c).meta.session_id,
        !p.meta_seen ==> p.meta == no_meta(),
        !q.meta_seen ==> q.meta == no_meta(),
    ensures
        sessions_fit(x, step(p, ordinal, c), step(q, ordinal, c)),
        step(q, ordinal, c).raw_calls == x.raw_calls + adopted_all(
            step(p, ordinal, c).raw_calls,
            x.meta.session_id,
        ),
{
    let (y, w) = (step(p, ordinal, c), step(q, ordinal, c));
    assert(w.raw_calls =~= x.raw_calls + adopted_all(y.raw_calls, x.meta.session_id));
}

/// Two stretches whose headers agree tell the events of the whole.
proof fn lemma_agreeing_stretches(a: Seq<ContentView>, b: Seq<ContentView>, first: nat)
    requires
        headers_agree(a + b),
    ensures
        ({
            let x = all_steps(a, first);
            let y = all_steps(b, first + a.len());
            let w = all_steps(a + b, first);
            &&& w.raw_calls == x.raw_calls + adopted_all(y.raw_calls, x.meta.session_id)
            &&& sessions_fit(x, y, w)
        }),
        headers_agree(a),
    decreases b.len(),
{
    let x = all_steps(a, first);
    lemma_without_header(a, first);
    if b.len() == 0 {
        assert(a + b =~= a);
        let y = all_steps(b, first + a.len());
        assert(x.raw_calls =~= x.raw_calls + adopted_all(y.raw_calls, x.meta.session_id));
    } else {
        let init = b.drop_last();
        assert((a + b).drop_last() =~= a + init);
        assert((a + b).last() == b.last());
        lemma_headers_agree_before(a + b);
        lemma_agreeing_stretches(a, init, first);
        let p = all_steps(init, first + a.len());
        let q = all_steps(a + init, first);
        let c = b.last();
        let n = (first + a.len() + init.len()) as nat;
        assert(all_steps(b, first + a.len()) == step(p, n, c));
        assert(all_steps(a + b, first) == step(q, n, c));
        lemma_without_header(init, first + a.len());
        lemma_without_header(a + init, first);
        lemma_header_kept(a + b, first);
        assert(c is Header ==> header_session(c) == all_steps(a + b, first).meta.session_id) by {
            reveal(headers_agree);
            assert((a + b)[(a + b).len() - 1] == c);
        }
        lemma_agreeing_line(x, p, q, n, c);
    }
}

/// The usage records of a file do not depend on its headers: those of two stretches are those of
/// the whole.
pub proof fn lemma_records_of_stretches(a: Seq<ContentView>, b: Seq<ContentView>, first: nat)
    requires
        forall|j: int|
            0 <= j < all_steps(a + b, first).raw_calls.len() ==> (#[trigger] all_steps(
                a + b,
                first,
            ).raw_calls[j]).source_format == SourceFormat::TokenUsageRecord,
    ensures
        all_steps(a + b, first).raw_calls == all_steps(a, first).raw_calls + all_steps(
            b,
            first + a.len(),
        ).raw_calls,
    decreases b.len(),
{
    let whole = all_steps(a + b, first);
    if b.len() == 0 {
        assert(a + b =~= a);
        assert(all_steps(b, first + a.len()).raw_calls =~= Seq::empty());
        assert(whole.raw_calls =~= all_steps(a, first).raw_calls + all_steps(
            b,
            first + a.len(),
        ).raw_calls);
    } else {
        let init = b.drop_last();
        assert((a + b).drop_last() =~= a + init);
        let shorter = all_steps(a + init, first);
        assert((a + b).last() == b.last());
        assert forall|j: int| 0 <= j < shorter.raw_calls.len() implies (
        #[trigger] shorter.raw_calls[j]).source_format == SourceFormat::TokenUsageRecord by {
            assert(whole.raw_calls[j] == shorter.raw_calls[j]);
        }
        lemma_records_of_stretches(a, init, first);
        if let ContentView::Count(n) = b.last() {
            if n.last is Some {
                assert(whole.raw_calls[shorter.raw_calls.len() as int].source_format
                    == SourceFormat::LegacyTokenCount);
            }
        }
        assert(whole.raw_calls =~= all_steps(a, first).raw_calls + all_steps(
            b,
            first + a.len(),
        ).raw_calls);
    }
}

/// What the rest of a grown file tells, read from the checkpoint.
pub open spec fn rest_told(a: Seq<u8>, b: Seq<u8>) -> ResultView {
    let r = reading(a, 0, false);
    all_steps(reading(b, r.end, r.pending).contents, r.contents.len())
}

/// A grown file tells what its beginning told, and then what the rest tells.
pub proof fn lemma_grown(a: Seq<u8>, b: Seq<u8>)
    requires
        is_grown(a, b),
        is_steady(b),
    ensures
        ({
            let r = reading(a, 0, false);
            let rest = reading(b, r.end, r.pending);
            let whole = reading(b, 0, false);
            let y = rest_told(a, b);
            &&& r.end <= a.len()
            &&& r.contents.len() <= r.end
            &&& whole.end == rest.end
            &&& whole.pending == rest.pending
            &&& whole.contents.len() == r.contents.len() + rest.contents.len()
            &&& whole.end <= b.len()
            &&& y.counters.lines_total == rest.contents.len()
            &&& told_by(b).raw_calls == told_by(a).raw_calls + adopted_all(
                y.raw_calls,
                told_by(a).meta.session_id,
            )
            &&& only_records(b) ==> told_by(b).raw_calls == told_by(a).raw_calls + y.raw_calls
            &&& told_by(b).primary_events == told_by(a).primary_events + y.primary_events
            &&& told_by(b).turn_models == told_by(a).turn_models.union_prefer_right(
                y.turn_models,
            )
            &&& headers_agree(whole.contents) ==> told_by(b).meta.session_id == (
            if y.meta.session_id is Some {
                y.meta.session_id
            } else {
                told_by(a).meta.session_id
            })
            &&& headers_agree(whole.contents) && told_by(a).meta.session_id is Some ==> told_by(
                b,
            ).meta.session_id == told_by(a).meta.session_id
            &&& r.end == 0 ==> told_by(a).meta.session_id is None
            &&& headers_agree(whole.contents) ==> headers_agree(r.contents)
            &&& forall|z: Seq<char>| #[trigger]
                names_session(r.contents, z) ==> names_session(whole.contents, z)
            &&& told_by(a).meta.session_id is Some ==> names_session(
                r.contents,
                told_by(a).meta.session_id->0,
            )
            &&& told_by(b).meta.session_id is Some ==> names_session(
                whole.contents,
                told_by(b).meta.session_id->0,
            )
            &&& y.meta.session_id is Some ==> names_session(
                whole.contents,
                y.meta.session_id->0,
            )
        }),
{
    reveal(told_by);
    let r = reading(a, 0, false);
    let rest = reading(b, r.end, r.pending);
    let whole = reading(b, 0, false);
    let x = all_steps(r.contents, 0);
    let y = rest_told(a, b);
    lemma_reading_end(a, 0, false);
    lemma_reading_end(b, r.end, r.pending);
    law_resume_reads_the_same(a, b, 0, false);
    lemma_lines_counted(rest.contents, r.contents.len());
    law_stretches_tell_the_whole(r.contents, rest.contents, 0);
    lemma_records_add_up(r.contents, rest.contents, 0);
    if headers_agree(whole.contents) {
        lemma_agreeing_stretches(r.contents, rest.contents, 0);
    }
    lemma_session_is_named(r.contents, 0);
    lemma_session_is_named(rest.contents, r.contents.len());
    lemma_session_is_named(whole.contents, 0);
    assert forall|z: Seq<char>| #[trigger] names_session(r.contents, z) implies names_session(
        whole.contents,
        z,
    ) by {
        lemma_named_in_part(r.contents, rest.contents, z);
    }
    if y.meta.session_id is Some {
        lemma_named_in_part(r.contents, rest.contents, y.meta.session_id->0);
    }
    lemma_without_header(r.contents, 0);
    lemma_without_header(rest.contents, r.contents.len());
    if only_records(b) {
        lemma_records_of_stretches(r.contents, rest.contents, 0);
        let w = told_by(b).raw_calls;
        assert forall|j: int| 0 <= j < y.raw_calls.len() implies (
        #[trigger] y.raw_calls[j]).source_format == SourceFormat::TokenUsageRecord by {
            assert(w[x.raw_calls.len() + j] == y.raw_calls[j]);
        }
        assert(adopted_all(y.raw_calls, x.meta.session_id) =~= y.raw_calls);
    }
}

/// A grown file tells the events that it told before, and then those of the rest, under the very
/// numbers, wherever it was cut: usage records whatever the headers are, and legacy events where
/// the headers agree.
pub proof fn law_grown_file_tells_the_same(a: Seq<u8>, b: Seq<u8>)
    requires
        is_grown(a, b),
        is_steady(b),
    ensures
        told_by(b).raw_calls == told_by(a).raw_calls + adopted_all(
            rest_told(a, b).raw_calls,
            told_by(a).meta.session_id,
        ),
        told_by(b).turn_models == told_by(a).turn_models.union_prefer_right(
            rest_told(a, b).turn_models,
        ),
{
    lemma_grown(a, b);
}

pub proof fn lemma_grown_to_itself(b: Seq<u8>)
    requires
        b.len() <= u64::MAX,
    ensures
        is_grown(b, b),
{
    assert(b =~= b.take(b.len() as int));
    lemma_pending_at_the_end(b, 0, false);
}

/// Where a line lacks its line feed, reading has come to the end.
pub proof fn lemma_pending_at_the_end(bytes: Seq<u8>, at: int, pending: bool)
    requires
        0 <= at <= bytes.len(),
        pending ==> at == bytes.len(),
    ensures
        reading(bytes, at, pending).pending ==> reading(bytes, at, pending).end == bytes.len(),
    decreases bytes.len() - at,
{
    if at < bytes.len() {
        lemma_line_end(bytes, at);
        let end = line_end(bytes, at);
        lemma_line_end_or_feed(bytes, at);
        lemma_pending_at_the_end(bytes, end, bytes[end - 1] != 10);
    }
}

pub proof fn lemma_line_end_or_feed(bytes: Seq<u8>, at: int)
    requires
        0 <= at < bytes.len(),
    ensures
        bytes[line_end(bytes, at) - 1] == 10 || line_end(bytes, at) == bytes.len(),
    decreases bytes.len() - at,
{
    lemma_line_end(bytes, at);
    if bytes[at] != 10 && at + 1 < bytes.len() {
        lemma_line_end_or_feed(bytes, at + 1);
    }
}

/// What a file told before it grew, it still tells.
pub proof fn lemma_stage(a: Seq<u8>, b: Seq<u8>)
    requires
        is_grown(a, b),
        is_steady(b),
    ensures
        ({
            let (x, w) = (told_by(a), told_by(b));
            &&& x.raw_calls.len() <= w.raw_calls.len()
            &&& forall|j: int|
                0 <= j < x.raw_calls.len() ==> #[trigger] x.raw_calls[j] == w.raw_calls[j]
            &&& x.primary_events <= w.primary_events
            &&& forall|j: int|
                0 <= j < x.raw_calls.len() && (#[trigger] x.raw_calls[j]).source_format
                    == SourceFormat::TokenUsageRecord ==> x.primary_events > 0
            &&& headers_agree(reading(b, 0, false).contents) ==> {
                &&& headers_agree(reading(a, 0, false).contents)
                &&& x.meta.session_id is Some ==> w.meta.session_id == x.meta.session_id
            }
            &&& forall|j: int|
                0 <= j < x.raw_calls.len() && (#[trigger] x.raw_calls[j]).source_format
                    == SourceFormat::LegacyTokenCount ==> x.raw_calls[j].session_id is None
                    || x.raw_calls[j].session_id == x.meta.session_id
        }),
{
    lemma_grown(a, b);
    let (x, w) = (told_by(a), told_by(b));
    assert forall|j: int| 0 <= j < x.raw_calls.len() implies #[trigger] x.raw_calls[j]
        == w.raw_calls[j] by {}
    let lines = reading(a, 0, false).contents;
    assert(x == all_steps(lines, 0)) by {
        reveal(told_by);
    }
    lemma_records_are_counted(lines, 0);
    lemma_legacy_session(lines, 0);
}

/// The beginning of a steady file is steady.
pub proof fn lemma_steady_before(a: Seq<u8>, b: Seq<u8>)
    requires
        is_grown(a, b),
        is_steady(b),
    ensures
        only_records(b) ==> only_records(a),
        is_steady(a),
{
    lemma_stage(a, b);
    if only_records(b) {
        assert forall|j: int| 0 <= j < told_by(a).raw_calls.len() implies (
        #[trigger] told_by(a).raw_calls[j]).source_format == SourceFormat::TokenUsageRecord by {
            assert(told_by(b).raw_calls[j].source_format == SourceFormat::TokenUsageRecord);
        }
    }
}

/// The checkpoint of a file says that these bytes have been read; without one, none have.
pub open spec fn is_noted(s: StoreView, rel: Seq<char>, bytes: Seq<u8>) -> bool {
    if s.checkpoints.contains_key(rel) {
        let c = s.checkpoints[rel];
        let r = reading(bytes, 0, false);
        &&& c.size == bytes.len()
        &&& c.last_complete_offset == r.end
        &&& c.lines_total == r.contents.len()
        &&& c.pending_newline == r.pending
        &&& c.had_primary == (told_by(bytes).primary_events > 0)
        &&& c.enrichment.turn_models == told_by(bytes).turn_models
        &&& c.enrichment.meta.session_id is Some ==> names_session(
            r.contents,
            c.enrichment.meta.session_id->0,
        )
        &&& headers_agree(r.contents) ==> c.enrichment.meta.session_id == told_by(
            bytes,
        ).meta.session_id
    } else {
        bytes.len() == 0
    }
}

/// Nothing is told by no bytes.
pub proof fn lemma_told_by_nothing(bytes: Seq<u8>)
    requires
        bytes.len() == 0,
    ensures
        told_by(bytes) == no_result(),
        reading(bytes, 0, false).contents.len() == 0,
        reading(bytes, 0, false).end == 0,
        !reading(bytes, 0, false).pending,
{
    reveal(told_by);
}

/// What importing a grown file reads.
pub proof fn lemma_file_input(p: Progress, i: FileInput, a: Seq<u8>, b: Seq<u8>)
    requires
        !i.force_full,
        i.content == FileContentView::Whole(b),
        i.file.size == b.len(),
        is_grown(a, b),
        is_steady(b),
        is_noted(p.store, i.rel, a),
    ensures
        told_by(b).raw_calls == told_by(a).raw_calls + file_events(p.store, i),
        file_context(p.store, i).primary == (told_by(b).primary_events > 0),
        headers_agree(reading(b, 0, false).contents) ==> file_context(
            p.store,
            i,
        ).enrichment.meta.session_id == told_by(b).meta.session_id,
        file_context(p.store, i).enrichment.meta.session_id is Some ==> names_session(
            reading(b, 0, false).contents,
            file_context(p.store, i).enrichment.meta.session_id->0,
        ),
        is_noted(with_changed_file(p, i).store, i.rel, b),
{
    lemma_grown(a, b);
    let start = file_start(p.store, i);
    let r = reading(a, 0, false);
    let y = rest_told(a, b);
    if !p.store.checkpoints.contains_key(i.rel) {
        lemma_told_by_nothing(a);
    }
    assert(start.offset == r.end);
    assert(start.lines == r.contents.len());
    assert(start.pending == r.pending);
    assert(start.had_primary == (told_by(a).primary_events > 0));
    assert(start.enrichment.turn_models == told_by(a).turn_models);
    assert(file_reading(p.store, i).result == y);
    let events = file_events(p.store, i);
    if headers_agree(reading(b, 0, false).contents) {
        assert(start.enrichment.meta.session_id == told_by(a).meta.session_id);
        assert(events =~= adopted_all(y.raw_calls, told_by(a).meta.session_id));
    } else {
        assert forall|j: int| 0 <= j < y.raw_calls.len() implies (
        #[trigger] y.raw_calls[j]).source_format == SourceFormat::TokenUsageRecord by {
            assert(told_by(b).raw_calls[told_by(a).raw_calls.len() + j] == y.raw_calls[j]);
        }
        assert(events =~= y.raw_calls);
    }
    let c = with_changed_file(p, i).store.checkpoints[i.rel];
    let whole = reading(b, 0, false);
    assert(whole.contents.len() <= whole.end) by {
        lemma_reading_end(b, 0, false);
    }
    assert(c.last_complete_offset == whole.end);
    assert(c.lines_total == whole.contents.len());
    assert(c.pending_newline == whole.pending);
    if headers_agree(whole.contents) {
        assert(start.enrichment.meta.session_id == told_by(a).meta.session_id);
        assert(c.enrichment.meta.session_id == told_by(b).meta.session_id);
    }
}

/// A file with one header at most is imported with the session of that header.
pub proof fn lemma_context_session(p: Progress, i: FileInput, a: Seq<u8>, b: Seq<u8>)
    requires
        !i.force_full,
        i.content == FileContentView::Whole(b),
        i.file.size == b.len(),
        is_grown(a, b),
        is_steady(b),
        is_noted(p.store, i.rel, a),
        headers_agree(reading(b, 0, false).contents),
    ensures
        file_context(p.store, i).enrichment.meta.session_id == told_by(b).meta.session_id,
{
    lemma_grown(a, b);
    if !p.store.checkpoints.contains_key(i.rel) {
        lemma_told_by_nothing(a);
    }
    let start = file_start(p.store, i);
    let r = reading(a, 0, false);
    assert(start.offset == r.end && start.lines == r.contents.len() && start.pending == r.pending);
    assert(file_reading(p.store, i).result == rest_told(a, b));
    assert(start.enrichment.meta.session_id == told_by(a).meta.session_id);
}

/// What the turns of a grown file are known to be.
pub proof fn lemma_file_turns(p: Progress, i: FileInput, a: Seq<u8>, b: Seq<u8>)
    requires
        !i.force_full,
        i.content == FileContentView::Whole(b),
        i.file.size == b.len(),
        is_grown(a, b),
        is_steady(b),
        is_noted(p.store, i.rel, a),
    ensures
        file_context(p.store, i).enrichment.turn_models == told_by(
            a,
        ).turn_models.union_prefer_right(rest_told(a, b).turn_models),
{
    lemma_grown(a, b);
    if !p.store.checkpoints.contains_key(i.rel) {
        lemma_told_by_nothing(a);
    }
    let start = file_start(p.store, i);
    let r = reading(a, 0, false);
    assert(start.offset == r.end && start.lines == r.contents.len() && start.pending == r.pending);
    assert(file_reading(p.store, i).result == rest_told(a, b));
}

} // verus!
