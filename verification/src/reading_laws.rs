//! Which bytes of a file make a line, and which text a line has.

use vstd::prelude::*;
use vstd::utf8::*;

use crate::line::content_of;
use crate::line::ContentView;
use crate::outside::json_fault;
use crate::outside::lossy_text;
use crate::parser::all_steps;
use crate::parser::cut_message;
use crate::parser::line_end;
use crate::parser::line_text;
use crate::parser::parsed;
use crate::parser::reading;
use crate::parser::trimmed;
use crate::parser::whole_lines;
use crate::parser::without_line_end;
use crate::parser::FileContentView;

verus! {

/// Nothing but line feeds, carriage returns, spaces and tabs.
pub open spec fn all_trailing(bytes: Seq<u8>) -> bool {
    forall|i: int|
        0 <= i < bytes.len() ==> ((#[trigger] bytes[i]) == 10 || bytes[i] == 13 || bytes[i] == 32
            || bytes[i] == 9)
}

/// Blanks at the end of a line are left out, and nothing else is.
pub proof fn law_trimming_leaves_out_blanks(body: Seq<u8>, blanks: Seq<u8>)
    requires
        body.len() == 0 || !(body.last() == 10 || body.last() == 13 || body.last() == 32
            || body.last() == 9),
        all_trailing(blanks),
    ensures
        trimmed(body + blanks) == body,
    decreases blanks.len(),
{
    if blanks.len() == 0 {
        assert(body + blanks =~= body);
    } else {
        let init = blanks.drop_last();
        assert forall|i: int| 0 <= i < init.len() implies ((#[trigger] init[i]) == 10 || init[i]
            == 13 || init[i] == 32 || init[i] == 9) by {
            assert(init[i] == blanks[i]);
        }
        law_trimming_leaves_out_blanks(body, init);
        assert((body + blanks).drop_last() =~= body + init);
        assert((body + blanks).last() == blanks[blanks.len() - 1]);
    }
}

/// The line end, with or without a carriage return, is no part of a line.
pub proof fn law_line_end_is_left_out(body: Seq<u8>)
    requires
        body.len() == 0 || !(body.last() == 10 || body.last() == 13),
    ensures
        without_line_end(body) == body,
        without_line_end(body.push(10)) == body,
        without_line_end(body.push(13).push(10)) == body,
{
    assert(body.push(10).drop_last() =~= body);
    assert(body.push(13).drop_last() =~= body);
    assert(body.push(13).push(10).drop_last() =~= body.push(13));
    reveal_with_fuel(without_line_end, 4);
}

/// The text of a line that is JSON is that JSON, without the blanks at its end; a line that is not
/// JSON has all its text but the line end.
pub proof fn law_text_of_a_line(body: Seq<u8>, blanks: Seq<u8>)
    requires
        body.len() == 0 || !(body.last() == 10 || body.last() == 13 || body.last() == 32
            || body.last() == 9),
        all_trailing(blanks),
    ensures
        json_fault(lossy_text(body)) is None ==> line_text(body + blanks) == lossy_text(body),
        json_fault(lossy_text(body)) is Some ==> line_text(body + blanks) == lossy_text(
            without_line_end(body + blanks),
        ),
        json_fault(lossy_text(body)) is Some ==> line_text(body.push(10)) == lossy_text(body),
{
    law_trimming_leaves_out_blanks(body, blanks);
    let feed = seq![10u8];
    law_trimming_leaves_out_blanks(body, feed);
    assert(body + feed =~= body.push(10));
    law_line_end_is_left_out(body);
}

proof fn lemma_line_end_at(bytes: Seq<u8>, at: int, n: int)
    requires
        0 <= at <= at + n < bytes.len(),
        forall|i: int| at <= i < at + n ==> (#[trigger] bytes[i]) != 10,
        bytes[at + n] == 10,
    ensures
        line_end(bytes, at) == at + n + 1,
    decreases n,
{
    if n > 0 {
        assert(bytes[at] != 10);
        lemma_line_end_at(bytes, at + 1, n - 1);
    }
}

proof fn lemma_no_line_end(bytes: Seq<u8>, at: int)
    requires
        0 <= at <= bytes.len(),
        forall|i: int| at <= i < bytes.len() ==> (#[trigger] bytes[i]) != 10,
    ensures
        line_end(bytes, at) == bytes.len(),
    decreases bytes.len() - at,
{
    if at < bytes.len() {
        assert(bytes[at] != 10);
        lemma_no_line_end(bytes, at + 1);
    }
}

/// Each line up to its line feed is taken, whatever it says, and reading goes on behind it. Behind a
/// line that lacked its line feed, blanks up to the next one are no line.
pub proof fn law_each_whole_line_is_taken(bytes: Seq<u8>, at: int, n: int, pending: bool)
    requires
        0 <= at <= at + n < bytes.len(),
        forall|i: int| at <= i < at + n ==> (#[trigger] bytes[i]) != 10,
        bytes[at + n] == 10,
    ensures
        ({
            let line = bytes.subrange(at, at + n + 1);
            let here = reading(bytes, at, pending);
            let next = reading(bytes, at + n + 1, false);
            let skipped = pending && all_trailing(line);
            &&& here.end == next.end && here.pending == next.pending
            &&& !skipped ==> here.contents.len() == next.contents.len() + 1 && here.contents[0]
                == content_of(line_text(line)) && here.contents.skip(1) == next.contents
            &&& skipped ==> here.contents == next.contents
        }),
{
    lemma_line_end_at(bytes, at, n);
    let line = bytes.subrange(at, at + n + 1);
    let here = reading(bytes, at, pending);
    let next = reading(bytes, at + n + 1, false);
    lemma_trimmed_empty(line);
    assert(bytes[line_end(bytes, at) - 1] == 10);
    if !(pending && all_trailing(line)) {
        assert(here.contents == seq![content_of(line_text(line))] + next.contents);
        assert(here.contents.skip(1) =~= next.contents);
    }
}

proof fn lemma_trimmed_empty(bytes: Seq<u8>)
    ensures
        trimmed(bytes).len() == 0 <==> all_trailing(bytes),
    decreases bytes.len(),
{
    if bytes.len() > 0 {
        let init = bytes.drop_last();
        lemma_trimmed_empty(init);
        assert(bytes[bytes.len() - 1] == bytes.last());
        assert forall|i: int| 0 <= i < init.len() implies init[i] == #[trigger] bytes[i] by {}
        if all_trailing(bytes) {
            assert forall|i: int| 0 <= i < init.len() implies ((#[trigger] init[i]) == 10 || init[i]
                == 13 || init[i] == 32 || init[i] == 9) by {
                assert(init[i] == bytes[i]);
            }
        }
        if all_trailing(init) && crate::parser::is_trailing(bytes.last()) {
            assert forall|i: int| 0 <= i < bytes.len() implies ((#[trigger] bytes[i]) == 10
                || bytes[i] == 13 || bytes[i] == 32 || bytes[i] == 9) by {
                if i < init.len() {
                    assert(init[i] == bytes[i]);
                }
            }
        }
    }
}

/// A last line that lacks its line feed is taken if and only if it is JSON; otherwise reading stops
/// before it.
pub proof fn law_last_line_is_taken_where_it_is_json(bytes: Seq<u8>, at: int)
    requires
        0 <= at < bytes.len(),
        forall|i: int| at <= i < bytes.len() ==> (#[trigger] bytes[i]) != 10,
    ensures
        ({
            let line = bytes.skip(at);
            let here = reading(bytes, at, false);
            let sound = json_fault(lossy_text(trimmed(line))) is None;
            &&& sound ==> here.contents == seq![content_of(lossy_text(trimmed(line)))] && here.end
                == bytes.len() && here.pending
            &&& !sound ==> here.contents.len() == 0 && here.end == at && !here.pending
        }),
{
    lemma_no_line_end(bytes, at);
    let line = bytes.skip(at);
    assert(bytes.subrange(at, bytes.len() as int) =~= line);
    assert(bytes[bytes.len() - 1] != 10);
    let rest = reading(bytes, bytes.len() as int, true);
    assert(rest.contents.len() == 0);
    let here = reading(bytes, at, false);
    if json_fault(lossy_text(trimmed(line))) is None {
        assert(here.contents =~= seq![content_of(lossy_text(trimmed(line)))]);
    }
}

/// At the end of a file nothing is read.
pub proof fn law_nothing_is_read_at_the_end(bytes: Seq<u8>, pending: bool)
    ensures
        reading(bytes, bytes.len() as int, pending).contents.len() == 0,
        reading(bytes, bytes.len() as int, pending).end == bytes.len(),
        reading(bytes, bytes.len() as int, pending).pending == pending,
{
}

/// Bytes up to their last line feed hold all whole lines and no other bytes.
pub proof fn law_whole_lines_end_with_a_line_feed(lines: Seq<u8>, partial: Seq<u8>)
    requires
        !partial.contains(10),
    ensures
        whole_lines(lines.push(10) + partial) == lines.push(10),
        whole_lines(partial) == Seq::<u8>::empty(),
    decreases partial.len(),
{
    let all = lines.push(10) + partial;
    if partial.len() == 0 {
        assert(all =~= lines.push(10));
        assert(partial =~= Seq::<u8>::empty());
    } else {
        let init = partial.drop_last();
        assert(partial.contains(partial.last()));
        assert(!init.contains(10)) by {
            if init.contains(10) {
                let i = choose|i: int| 0 <= i < init.len() && init[i] == 10;
                assert(partial[i] == 10);
            }
        }
        law_whole_lines_end_with_a_line_feed(lines, init);
        assert(all.drop_last() =~= lines.push(10) + init);
        assert(all.last() == partial.last());
    }
}

/// What reading a file gives: the lines that were taken and where reading stopped. Where reading
/// broke off, only whole lines count, and the reason stands behind the other messages; a file that
/// cannot be read gives its reason alone and stays where it was.
pub proof fn law_file_is_read_line_by_line(
    bytes: Seq<u8>,
    e: Seq<char>,
    start: int,
    first: nat,
    pending: bool,
)
    ensures
        ({
            let p = parsed(FileContentView::Whole(bytes), start, first, pending);
            let rd = reading(bytes, start, pending);
            &&& p.result == all_steps(rd.contents, first)
            &&& p.end_offset == rd.end
            &&& p.lines_processed == rd.contents.len()
            &&& p.pending_newline == rd.pending
        }),
        ({
            let b = parsed(FileContentView::Broken(bytes, e), start, first, pending);
            let p = parsed(FileContentView::Whole(whole_lines(bytes)), start, first, pending);
            &&& b.result.raw_calls == p.result.raw_calls
            &&& b.result.errors == p.result.errors.push(e)
            &&& b.result.counters == p.result.counters
            &&& !b.result.open_failed
            &&& b.end_offset == p.end_offset
            &&& b.lines_processed == p.lines_processed
            &&& b.pending_newline == p.pending_newline
        }),
        ({
            let u = parsed(FileContentView::Unreadable(e), start, first, pending);
            &&& u.result.open_failed
            &&& u.result.errors == seq![e]
            &&& u.result.raw_calls.len() == 0
            &&& u.end_offset == start
            &&& u.lines_processed == 0
            &&& u.pending_newline == pending
        }),
{
    lemma_never_failed(reading(whole_lines(bytes), start, pending).contents, first);
}

proof fn lemma_never_failed(contents: Seq<ContentView>, first: nat)
    ensures
        !all_steps(contents, first).open_failed,
    decreases contents.len(),
{
    if contents.len() > 0 {
        lemma_never_failed(contents.drop_last(), first);
    }
}

/// A message of up to 240 bytes is kept whole; of a longer one in ASCII letters the first 240 are
/// kept, with a mark behind them.
pub proof fn law_long_messages_are_cut(s: Seq<char>)
    ensures
        encode_utf8(s).len() <= 240 ==> cut_message(s) == s,
        is_ascii_chars(s) && s.len() > 240 ==> cut_message(s) == s.take(240) + "…"@,
{
    if is_ascii_chars(s) && s.len() > 240 {
        let bytes = encode_utf8(s);
        is_ascii_chars_encode_utf8(s);
        is_ascii_chars_nat_bound(s);
        encode_utf8_valid_utf8(s);
        let (a, b) = (s.take(240), s.skip(240));
        assert(s =~= a + b);
        is_ascii_chars_concat(s, a, b);
        is_ascii_chars_encode_utf8(a);
        assert forall|i: int| 0 <= i < 240 implies bytes.subrange(0, 240)[i]
            == #[trigger] encode_utf8(a)[i] by {
            assert(a[i] == s[i]);
            assert(s[i] as u8 == bytes[i]);
            assert(a[i] as u8 == encode_utf8(a)[i]);
        }
        assert(bytes.subrange(0, 240) =~= encode_utf8(a));
        encode_utf8_decode_utf8(a);
        assert(s[240] as u8 == bytes[240]);
        assert((s[240] as nat) < 128);
        is_char_boundary_iff_not_is_continuation_byte(bytes, 240);
        let x = bytes[240];
        assert(x < 128 ==> !is_continuation_byte(x)) by (bit_vector);
    }
}

} // verus!
