//! What a call is charged by, told by its rule, its tier and its tokens.

use vstd::prelude::*;

use crate::model::day_of;
use crate::model::CallView;
use crate::model::ServiceTier;
use crate::model::TokenUsage;
use crate::pricing::calls_in_tier;
use crate::pricing::certain_calls;
use crate::pricing::cost_of;
use crate::pricing::law_first_rule_applies;
use crate::pricing::Charge;
use crate::pricing::Rate;
use crate::pricing::RuleView;
use crate::text::text_le;

verus! {

/// A rule names the model of a call.
pub open spec fn names_model(r: RuleView, c: CallView) -> bool {
    let model = if c.model_slug is Some {
        c.model_slug->0
    } else {
        Seq::<char>::empty()
    };
    r.model == model || exists|i: int| 0 <= i < r.aliases.len() && #[trigger] r.aliases[i] == model
}

/// A rule is in force on the day of a call.
pub open spec fn in_force(r: RuleView, c: CallView) -> bool {
    let day = day_of(c.timestamp_utc);
    &&& match r.effective_from {
        Some(from) => text_le(from, day),
        None => true,
    }
    &&& match r.effective_until {
        Some(until) => text_le(day, until),
        None => true,
    }
}

/// How many tokens are charged at a rate.
pub open spec fn charged_at(charges: Seq<Charge>, rate: Rate) -> int
    decreases charges.len(),
{
    if charges.len() == 0 {
        0
    } else {
        charged_at(charges.drop_last(), rate) + if charges.last().rate == rate {
            charges.last().tokens as int
        } else {
            0
        }
    }
}

proof fn lemma_rule_of_call(rules: Seq<RuleView>, c: CallView, i: int)
    requires
        0 <= i < rules.len(),
        names_model(rules[i], c) && in_force(rules[i], c),
        forall|j: int| 0 <= j < i ==> !(names_model(#[trigger] rules[j], c) && in_force(rules[j], c)),
    ensures
        crate::pricing::rule_for(rules, crate::pricing::slug_of(c), day_of(c.timestamp_utc)) == Some(
            i,
        ),
{
    let (model, day) = (crate::pricing::slug_of(c), day_of(c.timestamp_utc));
    law_first_rule_applies(rules, model, day);
    assert forall|j: int| 0 <= j < rules.len() implies (crate::pricing::rule_applies(
        #[trigger] rules[j],
        model,
        day,
    ) <==> names_model(rules[j], c) && in_force(rules[j], c)) by {
        if rules[j].aliases.contains(model) {
            let k = choose|k: int| 0 <= k < rules[j].aliases.len() && rules[j].aliases[k] == model;
            assert(rules[j].aliases[k] == model);
        }
    }
    assert(rules[i] == rules[i]);
}

/// The first rule that names the model of a call and is in force on its day prices it, whatever the
/// call used. The multiplier of the fast tier applies if and only if the tier of the call is the
/// fast one and that rule has such a multiplier; the long-context rates apply if and only if the
/// rule has them and the input of the call exceeds the threshold of the rule.
pub proof fn law_first_rule_prices_the_call(rules: Seq<RuleView>, c: CallView, i: int)
    requires
        0 <= i < rules.len() <= usize::MAX,
        names_model(rules[i], c) && in_force(rules[i], c),
        forall|j: int| 0 <= j < i ==> !(names_model(#[trigger] rules[j], c) && in_force(rules[j], c)),
    ensures
        cost_of(rules, c).model_known,
        cost_of(rules, c).rule == Some(i as usize),
        cost_of(rules, c).fast_applied <==> c.service_tier == ServiceTier::Fast
            && rules[i].has_fast_multiplier,
        cost_of(rules, c).long_context <==> rules[i].long_context && c.usage.input_tokens
            > rules[i].long_context_threshold,
{
    lemma_rule_of_call(rules, c, i);
}

/// A call for which no rule is found has no price at all.
pub proof fn law_no_rule_no_price(rules: Seq<RuleView>, c: CallView)
    requires
        forall|j: int|
            0 <= j < rules.len() ==> !(names_model(#[trigger] rules[j], c) && in_force(rules[j], c)),
    ensures
        !cost_of(rules, c).model_known,
        cost_of(rules, c).rule is None,
        !cost_of(rules, c).fast_applied,
        !cost_of(rules, c).long_context,
        cost_of(rules, c).charges.len() == 0,
        cost_of(rules, c).charges_without_cache.len() == 0,
{
    let (model, day) = (crate::pricing::slug_of(c), day_of(c.timestamp_utc));
    law_first_rule_applies(rules, model, day);
    let found = crate::pricing::rule_for(rules, model, day);
    if found is Some {
        let j = found->0;
        if rules[j].aliases.contains(model) {
            let k = choose|k: int| 0 <= k < rules[j].aliases.len() && rules[j].aliases[k] == model;
            assert(rules[j].aliases[k] == model);
        }
        assert(names_model(rules[j], c) && in_force(rules[j], c));
    }
}

/// A call with a price is charged for its cached input at the cached rate, for its output at the
/// output rate, for its cache writes at their own rate where the rule has one and at the cached rate
/// otherwise, and for the rest of its input at the input rate. Only a charge at the rate of cache
/// writes is left unscaled by the tier.
pub proof fn law_tokens_are_charged_by_kind(rules: Seq<RuleView>, c: CallView)
    requires
        cost_of(rules, c).model_known,
        rules.len() <= usize::MAX,
    ensures
        ({
            let cost = cost_of(rules, c);
            let own = rules[cost.rule->0 as int].has_cache_write_rate;
            let rest = c.usage.input_tokens - c.usage.cached_input_tokens
                - c.usage.cache_write_input_tokens;
            &&& cost.rule is Some && cost.rule->0 < rules.len()
            &&& charged_at(cost.charges, Rate::Input) == if rest > 0 {
                rest
            } else {
                0
            }
            &&& charged_at(cost.charges, Rate::Output) == c.usage.output_tokens
            &&& own ==> charged_at(cost.charges, Rate::Cached) == c.usage.cached_input_tokens
                && charged_at(cost.charges, Rate::CacheWrite) == c.usage.cache_write_input_tokens
            &&& !own ==> charged_at(cost.charges, Rate::CacheWrite) == 0 && charged_at(
                cost.charges,
                Rate::Cached,
            ) == c.usage.cached_input_tokens + c.usage.cache_write_input_tokens
            &&& forall|k: int|
                0 <= k < cost.charges.len() ==> ((#[trigger] cost.charges[k]).scaled
                    <==> cost.charges[k].rate != Rate::CacheWrite)
        }),
{
    law_first_rule_applies(rules, crate::pricing::slug_of(c), day_of(c.timestamp_utc));
    let s = cost_of(rules, c).charges;
    assert(s.len() == 4);
    assert(s.drop_last() =~= s.take(3));
    assert(s.take(3).drop_last() =~= s.take(2));
    assert(s.take(2).drop_last() =~= s.take(1));
    assert(s.take(1).drop_last() =~= s.take(0));
    reveal_with_fuel(charged_at, 6);
}

/// Without a cache a call with a price would be charged for all its input at the input rate and for
/// its output at the output rate, and for nothing else.
pub proof fn law_tokens_charged_without_cache(rules: Seq<RuleView>, c: CallView)
    requires
        cost_of(rules, c).model_known,
    ensures
        ({
            let plain = cost_of(rules, c).charges_without_cache;
            &&& charged_at(plain, Rate::Input) == c.usage.input_tokens
            &&& charged_at(plain, Rate::Output) == c.usage.output_tokens
            &&& charged_at(plain, Rate::Cached) == 0
            &&& charged_at(plain, Rate::CacheWrite) == 0
            &&& forall|k: int| 0 <= k < plain.len() ==> (#[trigger] plain[k]).scaled
        }),
{
    let s = cost_of(rules, c).charges_without_cache;
    assert(s.len() == 2);
    assert(s.drop_last() =~= s.take(1));
    assert(s.take(1).drop_last() =~= s.take(0));
    reveal_with_fuel(charged_at, 4);
}

/// The price of a call depends on its model, its day, its tier and its usage alone.
pub proof fn law_price_depends_on_the_call_alone(rules: Seq<RuleView>, a: CallView, b: CallView)
    requires
        a.model_slug == b.model_slug,
        day_of(a.timestamp_utc) == day_of(b.timestamp_utc),
        a.service_tier == b.service_tier,
        a.usage == b.usage,
    ensures
        cost_of(rules, a) == cost_of(rules, b),
{
}

/// One more call adds to the calls whose price is certain if and only if its model and its tier are
/// known.
pub proof fn law_certain_calls_have_model_and_tier(calls: Seq<CallView>, c: CallView)
    ensures
        certain_calls(Seq::<CallView>::empty()) == 0,
        certain_calls(calls.push(c)) == certain_calls(calls) + (if c.model_slug is Some && (
        c.service_tier == ServiceTier::Standard || c.service_tier == ServiceTier::Fast) {
            1int
        } else {
            0
        }),
{
    assert(calls.push(c).drop_last() =~= calls);
}

/// One more call adds to its own tier and to no other.
pub proof fn law_each_call_counts_in_its_tier(calls: Seq<CallView>, c: CallView, t: ServiceTier)
    ensures
        calls_in_tier(Seq::<CallView>::empty(), t) == 0,
        c.service_tier == t ==> calls_in_tier(calls.push(c), t) == calls_in_tier(calls, t) + 1,
        c.service_tier != t ==> calls_in_tier(calls.push(c), t) == calls_in_tier(calls, t),
{
    assert(calls.push(c).drop_last() =~= calls);
}

/// The ordinary input is what is left of the input beside the cache, and never below zero; usage is
/// inconsistent where a part exceeds its whole.
pub proof fn law_parts_of_a_usage(u: TokenUsage)
    ensures
        u.cached_input_tokens + u.cache_write_input_tokens <= u.input_tokens
            ==> u.spec_ordinary_input() + u.cached_input_tokens + u.cache_write_input_tokens
            == u.input_tokens,
        u.cached_input_tokens + u.cache_write_input_tokens > u.input_tokens
            ==> u.spec_ordinary_input() == 0,
        u.spec_subset_violation() <==> u.cached_input_tokens > u.input_tokens
            || u.cache_write_input_tokens > u.input_tokens || u.reasoning_output_tokens
            > u.output_tokens,
{
}

/// Usages are added count by count, modulo 2^64.
pub proof fn law_usages_add_count_by_count(u: TokenUsage, v: TokenUsage)
    ensures
        u.plus(v).input_tokens == u.input_tokens.wrapping_add(v.input_tokens),
        u.plus(v).cached_input_tokens == u.cached_input_tokens.wrapping_add(v.cached_input_tokens),
        u.plus(v).cache_write_input_tokens == u.cache_write_input_tokens.wrapping_add(
            v.cache_write_input_tokens,
        ),
        u.plus(v).output_tokens == u.output_tokens.wrapping_add(v.output_tokens),
        u.plus(v).reasoning_output_tokens == u.reasoning_output_tokens.wrapping_add(
            v.reasoning_output_tokens,
        ),
        u.plus(v).total_tokens == u.total_tokens.wrapping_add(v.total_tokens),
{
}

} // verus!
