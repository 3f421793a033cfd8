//! The names that tiers, confidences and formats are stored under, and texts in general.

use vstd::prelude::*;

use crate::model::usage_sum;
use crate::model::CallView;
use crate::model::ModelConfidence;
use crate::model::ServiceTier;
use crate::model::SourceFormat;
use crate::text::blank;
use crate::text::has_part;

verus! {

/// The name of each tier, confidence and format.
pub proof fn law_names_of_kinds()
    ensures
        ServiceTier::Fast.label() == "fast"@,
        ServiceTier::Standard.label() == "standard"@,
        ServiceTier::Unknown.label() == "unknown"@,
        ModelConfidence::Exact.label() == "exact"@,
        ModelConfidence::Inferred.label() == "inferred"@,
        ModelConfidence::Unknown.label() == "unknown"@,
        SourceFormat::TokenUsageRecord.label() == "token_usage_record"@,
        SourceFormat::LegacyTokenCount.label() == "legacy_token_count"@,
{
}

/// A text names a confidence if and only if it is its name; any other names none.
pub proof fn law_confidence_of_a_text(t: Seq<char>)
    ensures
        ModelConfidence::of_text(t) == ModelConfidence::Exact <==> t == "exact"@,
        ModelConfidence::of_text(t) == ModelConfidence::Inferred <==> t == "inferred"@,
        SourceFormat::of_text(t) == SourceFormat::LegacyTokenCount <==> t
            == "legacy_token_count"@,
{
    reveal_strlit("exact");
    reveal_strlit("inferred");
    assert("exact"@.len() != "inferred"@.len());
}

/// A part of a text is found wherever it stands, and nothing is found in a shorter text.
pub proof fn law_parts_are_found_anywhere(before: Seq<char>, part: Seq<char>, behind: Seq<char>)
    ensures
        has_part(before + part + behind, part),
        before.len() < part.len() ==> !has_part(before, part),
{
    let whole = before + part + behind;
    let n = before.len() as int;
    assert(whole.subrange(n, n + part.len()) =~= part);
    assert(crate::text::stands_at(whole, part, n));
}

/// A text is blank if and only if it holds nothing but white space: a letter, a digit or any other
/// visible ASCII sign makes it solid, wherever it stands.
pub proof fn law_visible_letters_are_not_blank(before: Seq<char>, c: char, behind: Seq<char>)
    requires
        33 <= c as int <= 126,
    ensures
        !blank(before.push(c) + behind),
        blank(Seq::<char>::empty()),
        blank(before) && blank(behind) ==> blank(before + behind) && blank(
            before.push(' ') + behind,
        ) && blank(before.push('\t') + behind) && blank(before.push('\n') + behind),
{
    let t = before.push(c) + behind;
    assert(t[before.len() as int] == c);
    if blank(before) && blank(behind) {
        assert forall|i: int| 0 <= i < (before + behind).len() implies crate::text::is_space(
            #[trigger] (before + behind)[i],
        ) by {
            if i < before.len() {
                assert((before + behind)[i] == before[i]);
            } else {
                assert((before + behind)[i] == behind[i - before.len()]);
            }
        }
        lemma_blank_between(before, ' ', behind);
        lemma_blank_between(before, '\t', behind);
        lemma_blank_between(before, '\n', behind);
    }
}

proof fn lemma_blank_between(before: Seq<char>, c: char, behind: Seq<char>)
    requires
        blank(before),
        blank(behind),
        crate::text::is_space(c),
    ensures
        blank(before.push(c) + behind),
{
    let t = before.push(c) + behind;
    assert forall|i: int| 0 <= i < t.len() implies crate::text::is_space(#[trigger] t[i]) by {
        if i < before.len() {
            assert(t[i] == before[i]);
        } else if i > before.len() {
            assert(t[i] == behind[i - before.len() - 1]);
        }
    }
}

/// One more call adds its usage to that of the calls, count by count and modulo 2^64; no calls come
/// to nothing.
pub proof fn law_usage_of_calls_adds_up(calls: Seq<CallView>, c: CallView)
    ensures
        ({
            let (a, b) = (usage_sum(calls), usage_sum(calls.push(c)));
            &&& b.input_tokens == a.input_tokens.wrapping_add(c.usage.input_tokens)
            &&& b.cached_input_tokens == a.cached_input_tokens.wrapping_add(
                c.usage.cached_input_tokens,
            )
            &&& b.cache_write_input_tokens == a.cache_write_input_tokens.wrapping_add(
                c.usage.cache_write_input_tokens,
            )
            &&& b.output_tokens == a.output_tokens.wrapping_add(c.usage.output_tokens)
            &&& b.reasoning_output_tokens == a.reasoning_output_tokens.wrapping_add(
                c.usage.reasoning_output_tokens,
            )
            &&& b.total_tokens == a.total_tokens.wrapping_add(c.usage.total_tokens)
            &&& usage_sum(Seq::<CallView>::empty()).input_tokens == 0
            &&& usage_sum(Seq::<CallView>::empty()).cached_input_tokens == 0
            &&& usage_sum(Seq::<CallView>::empty()).cache_write_input_tokens == 0
            &&& usage_sum(Seq::<CallView>::empty()).output_tokens == 0
            &&& usage_sum(Seq::<CallView>::empty()).reasoning_output_tokens == 0
            &&& usage_sum(Seq::<CallView>::empty()).total_tokens == 0
        }),
{
    assert(calls.push(c).drop_last() =~= calls);
}

} // verus!
