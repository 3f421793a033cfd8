//! What a call is charged by: the rule of its model, and the tokens under each of its rates.
//!
//! Rates and multipliers are fractions and stay outside; here it is settled which of them apply
//! to how many tokens.

use vstd::prelude::*;

use crate::model::day_of;
use crate::model::usage_sum;
use crate::model::CallView;
use crate::model::InferenceCall;
use crate::model::ModelConfidence;
use crate::model::ServiceTier;
use crate::model::SourceFormat;
use crate::model::TokenUsage;
use crate::text;
use crate::text::text_le;

verus! {

/// One row of a catalogue, apart from its rates.
#[derive(Debug)]
pub struct PricingRule {
    pub model: String,
    pub aliases: Vec<String>,
    pub effective_from: Option<String>,
    pub effective_until: Option<String>,
    /// Cache writes have a rate of their own; otherwise they are charged like cached input.
    pub has_cache_write_rate: bool,
    pub long_context: bool,
    pub long_context_threshold: u64,
    /// There is a multiplier for the fast tier.
    pub has_fast_multiplier: bool,
}

/// What a [`PricingRule`] says.
pub struct RuleView {
    pub model: Seq<char>,
    pub aliases: Seq<Seq<char>>,
    pub effective_from: Option<Seq<char>>,
    pub effective_until: Option<Seq<char>>,
    pub has_cache_write_rate: bool,
    pub long_context: bool,
    pub long_context_threshold: u64,
    pub has_fast_multiplier: bool,
}

impl View for PricingRule {
    type V = RuleView;

    open spec fn view(&self) -> RuleView {
        RuleView {
            model: self.model@,
            aliases: self.aliases.deep_view(),
            effective_from: self.effective_from.deep_view(),
            effective_until: self.effective_until.deep_view(),
            has_cache_write_rate: self.has_cache_write_rate,
            long_context: self.long_context,
            long_context_threshold: self.long_context_threshold,
            has_fast_multiplier: self.has_fast_multiplier,
        }
    }
}

impl DeepView for PricingRule {
    type V = RuleView;

    open spec fn deep_view(&self) -> RuleView {
        self.view()
    }
}

/// A catalogue of rules, with its version and its source.
#[derive(Debug)]
pub struct PricingCatalog {
    pub catalog: String,
    pub profile: String,
    pub version: String,
    pub currency: String,
    pub unit: String,
    pub source_url: String,
    pub last_verified: String,
    pub notes: Vec<String>,
    pub rules: Vec<PricingRule>,
}

/// The catalogues of the two profiles.
#[derive(Debug)]
pub struct PricingEngine {
    pub codex: PricingCatalog,
    pub api: PricingCatalog,
}

/// The threshold of long context where a rule gives none.
pub fn default_threshold() -> (r: u64)
    ensures
        r == 272_000,
{
    272_000
}

/// The unit of the rates where a catalogue gives none.
pub fn default_unit() -> (r: String)
    ensures
        r@ == "per_1m_tokens"@,
{
    "per_1m_tokens".to_owned()
}

/// A rate of a rule.
#[derive(Debug, Clone, Copy, PartialEq, Eq, Structural)]
pub enum Rate {
    Input,
    Cached,
    CacheWrite,
    Output,
}

/// Tokens that are charged at one rate. A charge for long context takes the multiplier of its
/// rate, that of input for cache writes; a charge that is `scaled` takes that of the tier. A
/// region is never supposed.
#[derive(Debug, Clone, Copy, PartialEq, Eq, Structural)]
pub struct Charge {
    pub tokens: u64,
    pub rate: Rate,
    pub scaled: bool,
}

impl DeepView for Charge {
    type V = Charge;

    open spec fn deep_view(&self) -> Charge {
        *self
    }
}

/// What a call is charged by. All costs that follow from it are estimates, never an invoice.
#[derive(Debug)]
pub struct CostBreakdown {
    pub model_known: bool,
    pub long_context: bool,
    pub fast_applied: bool,
    /// The place of the rule in its catalogue.
    pub rule: Option<usize>,
    pub charges: Vec<Charge>,
    /// What would be charged without a cache.
    pub charges_without_cache: Vec<Charge>,
}

/// What a [`CostBreakdown`] says.
#[verifier::ext_equal]
pub struct CostView {
    pub model_known: bool,
    pub long_context: bool,
    pub fast_applied: bool,
    pub rule: Option<usize>,
    pub charges: Seq<Charge>,
    pub charges_without_cache: Seq<Charge>,
}

impl View for CostBreakdown {
    type V = CostView;

    open spec fn view(&self) -> CostView {
        CostView {
            model_known: self.model_known,
            long_context: self.long_context,
            fast_applied: self.fast_applied,
            rule: self.rule,
            charges: self.charges@,
            charges_without_cache: self.charges_without_cache@,
        }
    }
}

impl DeepView for CostBreakdown {
    type V = CostView;

    open spec fn deep_view(&self) -> CostView {
        self.view()
    }
}

/// No price.
pub open spec fn no_cost() -> CostView {
    CostView {
        model_known: false,
        long_context: false,
        fast_applied: false,
        rule: None,
        charges: Seq::empty(),
        charges_without_cache: Seq::empty(),
    }
}

impl Default for CostBreakdown {
    fn default() -> (r: Self)
        ensures
            r@ == no_cost(),
    {
        let r = CostBreakdown {
            model_known: false,
            long_context: false,
            fast_applied: false,
            rule: None,
            charges: Vec::new(),
            charges_without_cache: Vec::new(),
        };
        assert(r@ =~= no_cost());
        r
    }
}

/// A rule is for a model, by its name or one of its aliases, on a day within its period.
pub open spec fn rule_applies(r: RuleView, model: Seq<char>, day: Seq<char>) -> bool {
    &&& r.model == model || r.aliases.contains(model)
    &&& r.effective_from is Some ==> text_le(r.effective_from->0, day)
    &&& r.effective_until is Some ==> text_le(day, r.effective_until->0)
}

/// The first rule that applies.
pub open spec fn rule_for(rules: Seq<RuleView>, model: Seq<char>, day: Seq<char>) -> Option<int>
    decreases rules.len(),
{
    if rules.len() == 0 {
        None
    } else {
        match rule_for(rules.drop_last(), model, day) {
            Some(i) => Some(i),
            None => if rule_applies(rules.last(), model, day) {
                Some(rules.len() - 1)
            } else {
                None
            },
        }
    }
}

/// The long-context rates apply: the rule has them, and the input of this very call exceeds its
/// threshold.
pub open spec fn is_long(r: RuleView, u: TokenUsage) -> bool {
    r.long_context && u.input_tokens > r.long_context_threshold
}

/// What a call is charged by under a rule.
pub open spec fn charges_of(r: RuleView, u: TokenUsage) -> Seq<Charge> {
    seq![
        Charge { tokens: u.spec_ordinary_input() as u64, rate: Rate::Input, scaled: true },
        Charge { tokens: u.cached_input_tokens, rate: Rate::Cached, scaled: true },
        if r.has_cache_write_rate {
            Charge { tokens: u.cache_write_input_tokens, rate: Rate::CacheWrite, scaled: false }
        } else {
            Charge { tokens: u.cache_write_input_tokens, rate: Rate::Cached, scaled: true }
        },
        Charge { tokens: u.output_tokens, rate: Rate::Output, scaled: true },
    ]
}

/// What a call would be charged by without a cache.
pub open spec fn plain_charges_of(u: TokenUsage) -> Seq<Charge> {
    seq![
        Charge { tokens: u.input_tokens, rate: Rate::Input, scaled: true },
        Charge { tokens: u.output_tokens, rate: Rate::Output, scaled: true },
    ]
}

/// A model that is not known, told as the empty text.
pub open spec fn slug_of(c: CallView) -> Seq<char> {
    match c.model_slug {
        Some(m) => m,
        None => Seq::empty(),
    }
}

/// What a call is charged by in a catalogue; no price where no rule is for its model on its day.
pub open spec fn cost_of(rules: Seq<RuleView>, c: CallView) -> CostView {
    match rule_for(rules, slug_of(c), day_of(c.timestamp_utc)) {
        None => no_cost(),
        Some(i) => CostView {
            model_known: true,
            long_context: is_long(rules[i], c.usage),
            fast_applied: c.service_tier == ServiceTier::Fast && rules[i].has_fast_multiplier,
            rule: Some(i as usize),
            charges: charges_of(rules[i], c.usage),
            charges_without_cache: plain_charges_of(c.usage),
        },
    }
}

fn names_model(r: &PricingRule, model: &str) -> (b: bool)
    ensures
        b == (r@.model == model@ || r@.aliases.contains(model@)),
{
    if text::same(r.model.as_str(), model) {
        return true;
    }
    let n: usize = r.aliases.len();
    let mut i: usize = 0;
    while i < n
        invariant
            n == r.aliases@.len(),
            i <= n,
            forall|j: int| 0 <= j < i ==> #[trigger] r@.aliases[j] != model@,
        decreases n - i,
    {
        assert(r@.aliases[i as int] == r.aliases@[i as int]@);
        if text::same(r.aliases[i].as_str(), model) {
            return true;
        }
        i += 1;
    }
    false
}

fn applies(r: &PricingRule, model: &str, day: &str) -> (b: bool)
    ensures
        b == rule_applies(r@, model@, day@),
{
    if !names_model(r, model) {
        return false;
    }
    if let Some(from) = &r.effective_from {
        if text::is_before(day, from.as_str()) {
            return false;
        }
    }
    if let Some(until) = &r.effective_until {
        if text::is_before(until.as_str(), day) {
            return false;
        }
    }
    true
}

proof fn lemma_rule_found(rules: Seq<RuleView>, model: Seq<char>, day: Seq<char>, i: int)
    requires
        0 <= i < rules.len(),
        rule_applies(rules[i], model, day),
        forall|j: int| 0 <= j < i ==> !rule_applies(#[trigger] rules[j], model, day),
    ensures
        rule_for(rules, model, day) == Some(i),
    decreases rules.len(),
{
    let init = rules.drop_last();
    if i < init.len() {
        lemma_rule_found(init, model, day, i);
    } else {
        lemma_no_rule(init, model, day);
    }
}

proof fn lemma_no_rule(rules: Seq<RuleView>, model: Seq<char>, day: Seq<char>)
    requires
        forall|j: int| 0 <= j < rules.len() ==> !rule_applies(#[trigger] rules[j], model, day),
    ensures
        rule_for(rules, model, day) is None,
    decreases rules.len(),
{
    if rules.len() > 0 {
        assert(!rule_applies(rules[rules.len() - 1], model, day));
        assert forall|j: int| 0 <= j < rules.drop_last().len() implies !rule_applies(
            #[trigger] rules.drop_last()[j],
            model,
            day,
        ) by {
            assert(rules.drop_last()[j] == rules[j]);
        }
        lemma_no_rule(rules.drop_last(), model, day);
    }
}

/// The rule that is found lies in the catalogue, applies, and none before it does.
pub proof fn law_first_rule_applies(rules: Seq<RuleView>, model: Seq<char>, day: Seq<char>)
    ensures
        match rule_for(rules, model, day) {
            Some(i) => {
                &&& 0 <= i < rules.len()
                &&& rule_applies(rules[i], model, day)
                &&& forall|j: int| 0 <= j < i ==> !rule_applies(#[trigger] rules[j], model, day)
            },
            None => forall|j: int|
                0 <= j < rules.len() ==> !rule_applies(#[trigger] rules[j], model, day),
        },
    decreases rules.len(),
{
    if rules.len() > 0 {
        let init = rules.drop_last();
        law_first_rule_applies(init, model, day);
        assert forall|j: int| 0 <= j < init.len() implies init[j] == #[trigger] rules[j] by {}
    }
}

impl PricingEngine {
    /// Finds the rule of a model on a day.
    fn resolve(rules: &Vec<PricingRule>, model: &str, day: &str) -> (r: Option<usize>)
        ensures
            match r {
                Some(i) => i < rules@.len() && rule_for(rules.deep_view(), model@, day@) == Some(
                    i as int,
                ),
                None => rule_for(rules.deep_view(), model@, day@) is None,
            },
    {
        let ghost all = rules.deep_view();
        let n: usize = rules.len();
        let mut i: usize = 0;
        while i < n
            invariant
                n == rules@.len(),
                i <= n,
                all == rules.deep_view(),
                forall|j: int| 0 <= j < i ==> !rule_applies(#[trigger] all[j], model@, day@),
            decreases n - i,
        {
            assert(all[i as int] == rules@[i as int]@);
            if applies(&rules[i], model, day) {
                proof {
                    lemma_rule_found(all, model@, day@, i as int);
                }
                return Some(i);
            }
            i += 1;
        }
        proof {
            lemma_no_rule(all, model@, day@);
        }
        None
    }

    /// What a call is charged by in a profile. Long context is settled call by call, never on
    /// totals, and a model without a rule is never priced.
    pub fn cost(&self, profile: &PricingCatalog, call: &InferenceCall) -> (r: CostBreakdown)
        ensures
            r@ == cost_of(profile.rules.deep_view(), call@),
    {
        let day = call.day();
        let model = match &call.model_slug {
            Some(m) => m.as_str(),
            None => "",
        };
        proof {
            reveal_strlit("");
            assert(""@ =~= Seq::<char>::empty());
        }
        let i: usize = match Self::resolve(&profile.rules, model, day) {
            Some(i) => i,
            None => return CostBreakdown::default(),
        };
        let rule = &profile.rules[i];
        assert(profile.rules.deep_view()[i as int] == rule@);
        let u = &call.usage;
        let cache_write = if rule.has_cache_write_rate {
            Charge { tokens: u.cache_write_input_tokens, rate: Rate::CacheWrite, scaled: false }
        } else {
            Charge { tokens: u.cache_write_input_tokens, rate: Rate::Cached, scaled: true }
        };
        let charges = vec![
            Charge { tokens: u.ordinary_input(), rate: Rate::Input, scaled: true },
            Charge { tokens: u.cached_input_tokens, rate: Rate::Cached, scaled: true },
            cache_write,
            Charge { tokens: u.output_tokens, rate: Rate::Output, scaled: true },
        ];
        let charges_without_cache = vec![
            Charge { tokens: u.input_tokens, rate: Rate::Input, scaled: true },
            Charge { tokens: u.output_tokens, rate: Rate::Output, scaled: true },
        ];
        let r = CostBreakdown {
            model_known: true,
            long_context: rule.long_context && u.input_tokens > rule.long_context_threshold,
            fast_applied: call.service_tier == ServiceTier::Fast && rule.has_fast_multiplier,
            rule: Some(i),
            charges,
            charges_without_cache,
        };
        assert(r@ =~= cost_of(profile.rules.deep_view(), call@));
        r
    }

    /// What a call is charged by in the Codex profile.
    pub fn cost_codex(&self, call: &InferenceCall) -> (r: CostBreakdown)
        ensures
            r@ == cost_of(self.codex.rules.deep_view(), call@),
    {
        self.cost(&self.codex, call)
    }

    /// What a call is charged by in the API profile.
    pub fn cost_api(&self, call: &InferenceCall) -> (r: CostBreakdown)
        ensures
            r@ == cost_of(self.api.rules.deep_view(), call@),
    {
        self.cost(&self.api, call)
    }
}

/// A model that no rule names is never priced: nothing is charged for it.
pub proof fn law_unknown_model_is_never_priced(rules: Seq<RuleView>, c: CallView)
    requires
        forall|j: int|
            0 <= j < rules.len() ==> (#[trigger] rules[j]).model != slug_of(c)
                && !rules[j].aliases.contains(slug_of(c)),
    ensures
        cost_of(rules, c) == no_cost(),
{
    lemma_no_rule(rules, slug_of(c), day_of(c.timestamp_utc));
}

/// The multiplier of the fast tier applies only where that tier is known.
pub proof fn law_fast_only_where_known(rules: Seq<RuleView>, c: CallView)
    requires
        c.service_tier != ServiceTier::Fast,
    ensures
        !cost_of(rules, c).fast_applied,
{
}

/// A call is charged for its output, and for each token of its input under one rate, where the
/// parts of the input do not overlap.
pub proof fn law_each_token_is_charged_once(r: RuleView, u: TokenUsage)
    requires
        u.cached_input_tokens + u.cache_write_input_tokens <= u.input_tokens,
    ensures
        ({
            let charges = charges_of(r, u);
            &&& charges[0].tokens + charges[1].tokens + charges[2].tokens == u.input_tokens
            &&& charges[3].tokens == u.output_tokens
        }),
{
}

/// Charges for a call, where its model is known; its tokens count in any case.
pub fn priced(engine: &PricingEngine, call: &InferenceCall) -> (r: (
    Option<CostBreakdown>,
    ModelConfidence,
    SourceFormat,
))
    ensures
        ({
            let cost = cost_of(engine.codex.rules.deep_view(), call@);
            r.0.deep_view() == if cost.model_known {
                Some(cost)
            } else {
                None
            }
        }),
        r.1 == call.model_confidence,
        r.2 == call.source_format,
{
    let cd = engine.cost_codex(call);
    let cost = if cd.model_known {
        Some(cd)
    } else {
        None
    };
    (cost, call.model_confidence, call.source_format)
}

/// The price of the call is certain: its model and its tier are known.
pub open spec fn is_certain(c: CallView) -> bool {
    c.model_slug is Some && c.service_tier != ServiceTier::Unknown
}

/// How many calls have a price that is certain.
pub open spec fn certain_calls(calls: Seq<CallView>) -> nat
    decreases calls.len(),
{
    if calls.len() == 0 {
        0
    } else {
        certain_calls(calls.drop_last()) + if is_certain(calls.last()) {
            1nat
        } else {
            0
        }
    }
}

/// Counts the calls whose price is certain: their share of all calls is the confidence in the
/// price. The standard tier is never assumed.
pub fn confident_calls(calls: &Vec<InferenceCall>) -> (r: usize)
    ensures
        r == certain_calls(calls.deep_view()),
        r <= calls@.len(),
{
    let ghost all = calls.deep_view();
    let n: usize = calls.len();
    let mut count: usize = 0;
    let mut i: usize = 0;
    while i < n
        invariant
            n == calls@.len(),
            i <= n,
            all == calls.deep_view(),
            count <= i,
            count == certain_calls(all.take(i as int)),
        decreases n - i,
    {
        let c = &calls[i];
        assert(all[i as int] == c@);
        assert(all.take(i + 1).drop_last() =~= all.take(i as int));
        if c.model_slug.is_some() && c.service_tier != ServiceTier::Unknown {
            count += 1;
        }
        i += 1;
    }
    assert(all.take(n as int) =~= all);
    count
}

/// How many calls have a tier.
pub open spec fn calls_in_tier(calls: Seq<CallView>, t: ServiceTier) -> nat
    decreases calls.len(),
{
    if calls.len() == 0 {
        0
    } else {
        calls_in_tier(calls.drop_last(), t) + if calls.last().service_tier == t {
            1nat
        } else {
            0
        }
    }
}

/// Counts the calls of each tier: fast, standard, unknown.
pub fn tier_stats(calls: &Vec<InferenceCall>) -> (r: (u64, u64, u64))
    ensures
        r.0 == calls_in_tier(calls.deep_view(), ServiceTier::Fast),
        r.1 == calls_in_tier(calls.deep_view(), ServiceTier::Standard),
        r.2 == calls_in_tier(calls.deep_view(), ServiceTier::Unknown),
        r.0 + r.1 + r.2 == calls@.len(),
{
    let ghost all = calls.deep_view();
    let n: usize = calls.len();
    let mut fast: u64 = 0;
    let mut standard: u64 = 0;
    let mut unknown: u64 = 0;
    let mut i: usize = 0;
    while i < n
        invariant
            n == calls@.len(),
            i <= n,
            all == calls.deep_view(),
            fast + standard + unknown == i,
            fast == calls_in_tier(all.take(i as int), ServiceTier::Fast),
            standard == calls_in_tier(all.take(i as int), ServiceTier::Standard),
            unknown == calls_in_tier(all.take(i as int), ServiceTier::Unknown),
        decreases n - i,
    {
        let c = &calls[i];
        assert(all[i as int] == c@);
        assert(all.take(i + 1).drop_last() =~= all.take(i as int));
        match c.service_tier {
            ServiceTier::Fast => {
                fast += 1;
            },
            ServiceTier::Standard => {
                standard += 1;
            },
            ServiceTier::Unknown => {
                unknown += 1;
            },
        }
        i += 1;
    }
    assert(all.take(n as int) =~= all);
    (fast, standard, unknown)
}

/// The usage of calls together.
pub fn usage_of(calls: &Vec<InferenceCall>) -> (r: TokenUsage)
    ensures
        r == usage_sum(calls.deep_view()),
{
    let ghost all = calls.deep_view();
    let n: usize = calls.len();
    let mut t = TokenUsage::default();
    let mut i: usize = 0;
    while i < n
        invariant
            n == calls@.len(),
            i <= n,
            all == calls.deep_view(),
            t == usage_sum(all.take(i as int)),
        decreases n - i,
    {
        let c = &calls[i];
        assert(all[i as int] == c@);
        assert(all.take(i + 1).drop_last() =~= all.take(i as int));
        t.add(&c.usage);
        i += 1;
    }
    assert(all.take(n as int) =~= all);
    t
}

} // verus!
