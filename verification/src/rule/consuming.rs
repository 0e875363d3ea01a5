//! Rules that, by their form alone, consume at least one character
//! whenever they match.
use super::{Binding, Matcher, Rule};
use super::fuel::{lemma_rule_run, lemma_run_defined};
use super::laws::{
    lemma_match_is_prefix, lemma_seq_within, lemma_star_within, lemma_total_len_prepend,
};
use super::model::{Body, lemma_rules_model, matcher_model, RuleModel, rules_model};
use super::semantics::{
    defined, outcome, rule_fuel, run, run_body, run_seq, run_sor, run_star, total_len, untouched,
};
use vstd::prelude::*;

verus! {

/// By its form alone, every match of the rule consumes at least one
/// character.
pub open spec fn consuming(rule: RuleModel) -> bool
    decreases rule, 0int,
{
    match rule.body {
        Body::One(_) => true,
        Body::Ranges(_) => true,
        Body::Str(literal) => literal.len() > 0,
        Body::Sequence(rules) => some_consuming(rules),
        Body::Sor(options) => every_consuming(options),
        Body::Plus(inner) => consuming(*inner),
        Body::Custom(inner) => consuming(*inner),
        Body::Star(_) => false,
        Body::Opt(_) => false,
        Body::Eof => false,
        Body::Deferred(_) => false,
    }
}

/// One of the rules is consuming.
pub open spec fn some_consuming(rules: Seq<RuleModel>) -> bool
    decreases rules, 1int,
{
    rules.len() > 0 && (consuming(rules[0]) || some_consuming(rules.drop_first()))
}

/// All of the rules are consuming.
pub open spec fn every_consuming(rules: Seq<RuleModel>) -> bool
    decreases rules, 1int,
{
    rules.len() > 0 ==> consuming(rules[0]) && every_consuming(rules.drop_first())
}

/// A run of a consuming rule that ended with a node consumed at least one
/// character, and no more than there are.
pub proof fn lemma_run_consumes(
    arena: Seq<Option<RuleModel>>,
    rule: RuleModel,
    text: Seq<char>,
    fuel: nat,
)
    requires
        consuming(rule),
        run(arena, untouched(), rule, text, fuel) is Some,
        run(arena, untouched(), rule, text, fuel)->0 is Some,
    ensures
        0 < run(arena, untouched(), rule, text, fuel)->0->0.content.len() <= text.len(),
    decreases fuel,
{
    let post = untouched();
    let deeper = (fuel - 2) as nat;
    lemma_run_defined(arena, post, rule, text, fuel);
    lemma_match_is_prefix(arena, rule, text);
    match rule.body {
        Body::Sequence(rules) => {
            assert(run_body(arena, post, rule.body, rule.id, rule.name, text, (fuel - 1) as nat)
                is Some);
            let items = run_seq(arena, post, rules, text, deeper)->0->0;
            assert(run_seq(arena, post, rules, text, deeper) == Some(Some(items)));
            lemma_seq_consumes(arena, rules, text, deeper);
            lemma_seq_within(arena, rules, text, deeper);
            assert(run(arena, post, rule, text, fuel)->0->0.content == text.subrange(
                0,
                total_len(items) as int,
            ));
            assert(text.subrange(0, total_len(items) as int).len() == total_len(items));

        },
        Body::Sor(options) => {
            lemma_sor_consumes(arena, options, text, deeper);
        },
        Body::Plus(inner) => {
            let below = (fuel - 3) as nat;
            assert(run_star(arena, post, *inner, text, deeper) is Some);
            let first = run(arena, post, *inner, text, below)->0->0;
            lemma_run_consumes(arena, *inner, text, below);
            let rest = run_star(
                arena,
                post,
                *inner,
                text.skip(first.content.len() as int),
                below,
            )->0;
            lemma_total_len_prepend(first, rest);
            lemma_star_within(arena, *inner, text, deeper);
            let items = run_star(arena, post, *inner, text, deeper)->0;
            assert(items == seq![first] + rest);
            assert(text.subrange(0, total_len(items) as int).len() == total_len(items));
        },
        Body::Custom(inner) => {
            lemma_run_consumes(arena, *inner, text, deeper);
        },
        Body::One(c) => {
            assert(text.subrange(0, 1).len() == 1);
        },
        Body::Ranges(ranges) => {
            assert(text.subrange(0, 1).len() == 1);
        },
        Body::Str(literal) => {
            assert(text.subrange(0, literal.len() as int).len() == literal.len());
        },
        _ => {},
    }
}

proof fn lemma_seq_consumes(
    arena: Seq<Option<RuleModel>>,
    rules: Seq<RuleModel>,
    text: Seq<char>,
    fuel: nat,
)
    requires
        some_consuming(rules),
        run_seq(arena, untouched(), rules, text, fuel) is Some,
        run_seq(arena, untouched(), rules, text, fuel)->0 is Some,
    ensures
        0 < total_len(run_seq(arena, untouched(), rules, text, fuel)->0->0),
    decreases fuel,
{
    let post = untouched();
    let below = (fuel - 1) as nat;
    let first = run(arena, post, rules[0], text, below)->0->0;
    let left = text.skip(first.content.len() as int);
    let rest = run_seq(arena, post, rules.drop_first(), left, below)->0->0;
    lemma_total_len_prepend(first, rest);
    if consuming(rules[0]) {
        lemma_run_consumes(arena, rules[0], text, below);
    } else {
        lemma_seq_consumes(arena, rules.drop_first(), left, below);
    }
}

proof fn lemma_sor_consumes(
    arena: Seq<Option<RuleModel>>,
    options: Seq<RuleModel>,
    text: Seq<char>,
    fuel: nat,
)
    requires
        every_consuming(options),
        run_sor(arena, untouched(), options, text, fuel) is Some,
        run_sor(arena, untouched(), options, text, fuel)->0 is Some,
    ensures
        0 < run_sor(arena, untouched(), options, text, fuel)->0->0.content.len(),
    decreases fuel,
{
    let post = untouched();
    let below = (fuel - 1) as nat;
    if run(arena, post, options[0], text, below)->0 is Some {
        lemma_run_consumes(arena, options[0], text, below);
    } else {
        lemma_sor_consumes(arena, options.drop_first(), text, below);
    }
}

/// A successful match of a consuming rule consumes at least one character.
pub proof fn lemma_consuming_rules_consume(
    arena: Seq<Option<RuleModel>>,
    rule: RuleModel,
    text: Seq<char>,
)
    requires
        consuming(rule),
        defined(arena, untouched(), rule, text),
        outcome(arena, untouched(), rule, text) is Some,
    ensures
        outcome(arena, untouched(), rule, text)->0.content.len() > 0,
{
    lemma_rule_run(arena, untouched(), rule, text);
    lemma_run_consumes(arena, rule, text, rule_fuel(arena, untouched(), rule, text));
}

/// The matcher of a rule's value is the value of the rule's matcher.
pub proof fn lemma_rule_body(rule: Rule)
    ensures
        rule@.body == (match rule.rule {
            Binding::Own(matcher) => match *matcher {
                Matcher::One(m) => Body::One(m.c),
                Matcher::Str(m) => Body::Str(m.s@),
                Matcher::Ranges(m) => Body::Ranges(m.ranges@),
                Matcher::Sequence(m) => Body::Sequence(rules_model(m.rules@)),
                Matcher::Sor(m) => Body::Sor(rules_model(m.options@)),
                Matcher::Star(m) => Body::Star(Box::new(m.rule@)),
                Matcher::Plus(m) => Body::Plus(Box::new(m.rule@)),
                Matcher::Opt(m) => Body::Opt(Box::new(m.rule@)),
                Matcher::Eof(_) => Body::Eof,
                Matcher::Custom(m) => Body::Custom(Box::new(m.rule@)),
            },
            Binding::Deferred(slot) => Body::Deferred(slot as nat),
        }),
{
    match rule.rule {
        Binding::Own(matcher) => {
            assert(rule@.body == matcher_model(*matcher));
        },
        Binding::Deferred(_) => {},
    }
}

/// One of the rules is consuming exactly if there is an index at which
/// the rule is consuming.
pub proof fn lemma_some_consuming(rules: Seq<RuleModel>)
    ensures
        some_consuming(rules) == exists|i: int|
            0 <= i < rules.len() && consuming(#[trigger] rules[i]),
    decreases rules.len(),
{
    if rules.len() > 0 {
        let rest = rules.drop_first();
        lemma_some_consuming(rest);
        if some_consuming(rules) {
            if consuming(rules[0]) {
            } else {
                let i = choose|i: int| 0 <= i < rest.len() && consuming(#[trigger] rest[i]);
                assert(rest[i] == rules[i + 1]);
            }
        }
        if exists|i: int| 0 <= i < rules.len() && consuming(#[trigger] rules[i]) {
            let i = choose|i: int| 0 <= i < rules.len() && consuming(#[trigger] rules[i]);
            if i > 0 {
                assert(rest[i - 1] == rules[i]);
            }
        }
    }
}

/// All of the rules are consuming exactly if the rule at every index is.
pub proof fn lemma_every_consuming(rules: Seq<RuleModel>)
    ensures
        every_consuming(rules) == forall|i: int|
            0 <= i < rules.len() ==> consuming(#[trigger] rules[i]),
    decreases rules.len(),
{
    if rules.len() > 0 {
        let rest = rules.drop_first();
        lemma_every_consuming(rest);
        if every_consuming(rules) {
            assert forall|i: int| 0 <= i < rules.len() implies consuming(#[trigger] rules[i]) by {
                if i > 0 {
                    assert(rest[i - 1] == rules[i]);
                }
            }
        }
        if forall|i: int| 0 <= i < rules.len() ==> consuming(#[trigger] rules[i]) {
            assert forall|i: int| 0 <= i < rest.len() implies consuming(#[trigger] rest[i]) by {
                assert(rest[i] == rules[i + 1]);
            }
        }
    }
}

/// Whether one of the rules is consuming.
pub fn any_consuming(rules: &Vec<Rule>) -> (yes: bool)
    ensures
        yes == some_consuming(rules_model(rules@)),
    decreases rules, 0int,
{
    proof {
        lemma_rules_model(rules@);
        lemma_some_consuming(rules_model(rules@));
    }
    let mut i: usize = 0;
    while i < rules.len()
        invariant
            i <= rules.len(),
            rules_model(rules@).len() == rules.len(),
            forall|j: int|
                0 <= j < rules.len() ==> (#[trigger] rules_model(rules@)[j]) == rules@[j]@,
            forall|j: int| 0 <= j < i ==> !consuming(#[trigger] rules_model(rules@)[j]),
            some_consuming(rules_model(rules@)) == exists|k: int|
                0 <= k < rules_model(rules@).len() && consuming(
                    #[trigger] rules_model(rules@)[k],
                ),
        decreases rules.len() - i,
    {
        if rules[i].is_consuming() {
            assert(consuming(rules_model(rules@)[i as int]));
            return true;
        }
        i += 1;
    }
    false
}

/// Whether all of the rules are consuming.
pub fn all_consuming(rules: &Vec<Rule>) -> (yes: bool)
    ensures
        yes == every_consuming(rules_model(rules@)),
    decreases rules, 0int,
{
    proof {
        lemma_rules_model(rules@);
        lemma_every_consuming(rules_model(rules@));
    }
    let mut i: usize = 0;
    while i < rules.len()
        invariant
            i <= rules.len(),
            rules_model(rules@).len() == rules.len(),
            forall|j: int|
                0 <= j < rules.len() ==> (#[trigger] rules_model(rules@)[j]) == rules@[j]@,
            forall|j: int| 0 <= j < i ==> consuming(#[trigger] rules_model(rules@)[j]),
            every_consuming(rules_model(rules@)) == forall|k: int|
                0 <= k < rules_model(rules@).len() ==> consuming(
                    #[trigger] rules_model(rules@)[k],
                ),
        decreases rules.len() - i,
    {
        if !rules[i].is_consuming() {
            assert(!consuming(rules_model(rules@)[i as int]));
            return false;
        }
        i += 1;
    }
    true
}

impl Rule {
    /// Whether, by its form alone, every match of the rule consumes at
    /// least one character.
    pub fn is_consuming(&self) -> (yes: bool)
        ensures
            yes == consuming(self@),
        decreases self, 1int,
    {
        proof {
            lemma_rule_body(*self);
        }
        match &self.rule {
            Binding::Deferred(_) => false,
            Binding::Own(matcher) => match &**matcher {
                Matcher::One(_) => true,
                Matcher::Ranges(_) => true,
                Matcher::Str(m) => !m.s.as_str().is_empty(),
                Matcher::Eof(_) => false,
                Matcher::Star(_) => false,
                Matcher::Opt(_) => false,
                Matcher::Plus(m) => m.rule.is_consuming(),
                Matcher::Custom(m) => m.rule.is_consuming(),
                Matcher::Sequence(m) => any_consuming(&m.rules),
                Matcher::Sor(m) => all_consuming(&m.options),
            },
        }
    }
}

} // verus!
