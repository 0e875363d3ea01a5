//! A condition on the form of a grammar under which matching is defined on
//! every text: whatever is repeated consumes at least one character each
//! time, and a declared rule is only entered again after at least one
//! character was consumed. It can be tested before a text is matched.
use crate::node::{Node, tree_of_result};
use super::{Arena, Binding, Matcher, Rule};
use super::consuming::{consuming, lemma_rule_body, lemma_run_consumes};
use super::fuel::{
    lemma_run_defined, lemma_run_more_fuel, lemma_seq_more_fuel, lemma_sor_more_fuel,
    lemma_star_more_fuel,
};
use super::laws::lemma_match_is_prefix;
use super::model::{Body, lemma_rules_model, lemma_slots_model, RuleModel, rules_model};
use super::semantics::{defined, outcome, run, run_body, run_seq, run_sor, run_star, untouched};
use vstd::prelude::*;

verus! {

/// By its form alone, the rule can be matched against every text. `free`
/// says whether a declared rule may be entered right away: that is so at
/// the start of a match and after something was consumed, and it is not so
/// at the start of the definition of a declared rule.
pub open spec fn guarded(arena: Seq<Option<RuleModel>>, rule: RuleModel, free: bool) -> bool
    decreases rule, 0int,
{
    match rule.body {
        Body::One(_) => true,
        Body::Ranges(_) => true,
        Body::Str(_) => true,
        Body::Eof => true,
        Body::Sequence(rules) => guarded_in_turn(arena, rules, free),
        Body::Sor(options) => guarded_each(arena, options, free),
        Body::Star(inner) => consuming(*inner) && guarded(arena, *inner, free),
        Body::Plus(inner) => consuming(*inner) && guarded(arena, *inner, free),
        Body::Opt(inner) => guarded(arena, *inner, free),
        Body::Custom(inner) => guarded(arena, *inner, free),
        Body::Deferred(slot) => free && slot < arena.len() && arena[slot as int] is Some,
    }
}

/// The rules are guarded one after the other: each of them where it
/// stands, which is free from the first consuming rule on.
pub open spec fn guarded_in_turn(
    arena: Seq<Option<RuleModel>>,
    rules: Seq<RuleModel>,
    free: bool,
) -> bool
    decreases rules, 1int,
{
    rules.len() > 0 ==> guarded(arena, rules[0], free) && guarded_in_turn(
        arena,
        rules.drop_first(),
        free || consuming(rules[0]),
    )
}

/// Each of the rules is guarded.
pub open spec fn guarded_each(
    arena: Seq<Option<RuleModel>>,
    rules: Seq<RuleModel>,
    free: bool,
) -> bool
    decreases rules, 1int,
{
    rules.len() > 0 ==> guarded(arena, rules[0], free) && guarded_each(
        arena,
        rules.drop_first(),
        free,
    )
}

/// Every definition in the arena is guarded from its start.
pub open spec fn sound(arena: Seq<Option<RuleModel>>) -> bool {
    forall|slot: int|
        0 <= slot < arena.len() && arena[slot] is Some ==> guarded(
            arena,
            (#[trigger] arena[slot])->0,
            false,
        )
}

/// What is guarded where a declared rule may not be entered is guarded
/// where it may.
pub proof fn lemma_guarded_when_free(arena: Seq<Option<RuleModel>>, rule: RuleModel)
    requires
        guarded(arena, rule, false),
    ensures
        guarded(arena, rule, true),
    decreases rule, 0int,
{
    match rule.body {
        Body::Sequence(rules) => {
            lemma_guarded_in_turn_when_free(arena, rules, false);
        },
        Body::Sor(options) => {
            lemma_guarded_each_when_free(arena, options);
        },
        Body::Star(inner) => {
            lemma_guarded_when_free(arena, *inner);
        },
        Body::Plus(inner) => {
            lemma_guarded_when_free(arena, *inner);
        },
        Body::Opt(inner) => {
            lemma_guarded_when_free(arena, *inner);
        },
        Body::Custom(inner) => {
            lemma_guarded_when_free(arena, *inner);
        },
        _ => {},
    }
}

proof fn lemma_guarded_in_turn_when_free(
    arena: Seq<Option<RuleModel>>,
    rules: Seq<RuleModel>,
    free: bool,
)
    requires
        guarded_in_turn(arena, rules, free),
    ensures
        guarded_in_turn(arena, rules, true),
    decreases rules, 1int,
{
    if rules.len() > 0 {
        if !free {
            lemma_guarded_when_free(arena, rules[0]);
        }
        lemma_guarded_in_turn_when_free(arena, rules.drop_first(), free || consuming(rules[0]));
    }
}

proof fn lemma_guarded_each_when_free(arena: Seq<Option<RuleModel>>, rules: Seq<RuleModel>)
    requires
        guarded_each(arena, rules, false),
    ensures
        guarded_each(arena, rules, true),
    decreases rules, 1int,
{
    if rules.len() > 0 {
        lemma_guarded_when_free(arena, rules[0]);
        lemma_guarded_each_when_free(arena, rules.drop_first());
    }
}

proof fn lemma_guarded_run(
    arena: Seq<Option<RuleModel>>,
    rule: RuleModel,
    text: Seq<char>,
    bound: nat,
    free: bool,
) -> (fuel: nat)
    requires
        sound(arena),
        guarded(arena, rule, free),
        text.len() <= bound,
        free ==> text.len() < bound,
    ensures
        run(arena, untouched(), rule, text, fuel) is Some,
    decreases bound, rule, text.len(), 0int,
{
    let post = untouched();
    match rule.body {
        Body::Sequence(rules) => {
            let below = lemma_guarded_seq(arena, rules, text, bound, free);
            assert(run_body(arena, post, rule.body, rule.id, rule.name, text, below + 1) is Some);
            below + 2
        },
        Body::Sor(options) => {
            let below = lemma_guarded_sor(arena, options, text, bound, free);
            assert(run_body(arena, post, rule.body, rule.id, rule.name, text, below + 1) is Some);
            below + 2
        },
        Body::Star(inner) => {
            let below = lemma_guarded_star(arena, *inner, text, bound, free);
            assert(run_body(arena, post, rule.body, rule.id, rule.name, text, below + 1) is Some);
            below + 2
        },
        Body::Plus(inner) => {
            let below = lemma_guarded_star(arena, *inner, text, bound, free);
            assert(run_body(arena, post, rule.body, rule.id, rule.name, text, below + 1) is Some);
            below + 2
        },
        Body::Opt(inner) => {
            let below = lemma_guarded_run(arena, *inner, text, bound, free);
            assert(run_body(arena, post, rule.body, rule.id, rule.name, text, below + 1) is Some);
            below + 2
        },
        Body::Custom(inner) => {
            let below = lemma_guarded_run(arena, *inner, text, bound, free);
            assert(run_body(arena, post, rule.body, rule.id, rule.name, text, below + 1) is Some);
            below + 2
        },
        Body::Deferred(slot) => {
            let bound_rule = arena[slot as int]->0;
            let below = lemma_guarded_run(arena, bound_rule, text, text.len(), false);
            assert(run_body(arena, post, rule.body, rule.id, rule.name, text, below + 1) is Some);
            below + 2
        },
        _ => {
            assert(run_body(arena, post, rule.body, rule.id, rule.name, text, 0) is Some);
            1
        },
    }
}

proof fn lemma_guarded_seq(
    arena: Seq<Option<RuleModel>>,
    rules: Seq<RuleModel>,
    text: Seq<char>,
    bound: nat,
    free: bool,
) -> (fuel: nat)
    requires
        sound(arena),
        guarded_in_turn(arena, rules, free),
        text.len() <= bound,
        free ==> text.len() < bound,
    ensures
        run_seq(arena, untouched(), rules, text, fuel) is Some,
    decreases bound, rules, text.len(), 0int,
{
    let post = untouched();
    if rules.len() == 0 {
        0
    } else {
        let first_fuel = lemma_guarded_run(arena, rules[0], text, bound, free);
        match run(arena, post, rules[0], text, first_fuel) {
            Some(Some(first)) => {
                lemma_run_defined(arena, post, rules[0], text, first_fuel);
                lemma_match_is_prefix(arena, rules[0], text);
                if consuming(rules[0]) {
                    lemma_run_consumes(arena, rules[0], text, first_fuel);
                }
                let rest = rules.drop_first();
                let left = text.skip(first.content.len() as int);
                let rest_fuel = lemma_guarded_seq(
                    arena,
                    rest,
                    left,
                    bound,
                    free || consuming(rules[0]),
                );
                let fuel = first_fuel + rest_fuel;
                lemma_run_more_fuel(arena, post, rules[0], text, first_fuel, fuel);
                lemma_seq_more_fuel(arena, post, rest, left, rest_fuel, fuel);
                fuel + 1
            },
            _ => first_fuel + 1,
        }
    }
}

proof fn lemma_guarded_sor(
    arena: Seq<Option<RuleModel>>,
    options: Seq<RuleModel>,
    text: Seq<char>,
    bound: nat,
    free: bool,
) -> (fuel: nat)
    requires
        sound(arena),
        guarded_each(arena, options, free),
        text.len() <= bound,
        free ==> text.len() < bound,
    ensures
        run_sor(arena, untouched(), options, text, fuel) is Some,
    decreases bound, options, text.len(), 0int,
{
    let post = untouched();
    if options.len() == 0 {
        0
    } else {
        let first_fuel = lemma_guarded_run(arena, options[0], text, bound, free);
        match run(arena, post, options[0], text, first_fuel) {
            Some(None) => {
                let rest = options.drop_first();
                let rest_fuel = lemma_guarded_sor(arena, rest, text, bound, free);
                let fuel = first_fuel + rest_fuel;
                lemma_run_more_fuel(arena, post, options[0], text, first_fuel, fuel);
                lemma_sor_more_fuel(arena, post, rest, text, rest_fuel, fuel);
                fuel + 1
            },
            _ => first_fuel + 1,
        }
    }
}

proof fn lemma_guarded_star(
    arena: Seq<Option<RuleModel>>,
    rule: RuleModel,
    text: Seq<char>,
    bound: nat,
    free: bool,
) -> (fuel: nat)
    requires
        sound(arena),
        consuming(rule),
        guarded(arena, rule, free),
        text.len() <= bound,
        free ==> text.len() < bound,
    ensures
        run_star(arena, untouched(), rule, text, fuel) is Some,
    decreases bound, rule, text.len(), 1int,
{
    let post = untouched();
    let first_fuel = lemma_guarded_run(arena, rule, text, bound, free);
    match run(arena, post, rule, text, first_fuel) {
        Some(Some(first)) => {
            lemma_run_consumes(arena, rule, text, first_fuel);
            if !free {
                lemma_guarded_when_free(arena, rule);
            }
            let left = text.skip(first.content.len() as int);
            let rest_fuel = lemma_guarded_star(arena, rule, left, bound, true);
            let fuel = first_fuel + rest_fuel;
            lemma_run_more_fuel(arena, post, rule, text, first_fuel, fuel);
            lemma_star_more_fuel(arena, post, rule, left, rest_fuel, fuel);
            fuel + 1
        },
        _ => first_fuel + 1,
    }
}

/// In a sound arena, matching a rule that is guarded at the start of a
/// match is defined on every text.
pub proof fn lemma_guarded_rules_are_defined(
    arena: Seq<Option<RuleModel>>,
    rule: RuleModel,
    text: Seq<char>,
)
    requires
        sound(arena),
        guarded(arena, rule, true),
    ensures
        defined(arena, untouched(), rule, text),
{
    let fuel = lemma_guarded_run(arena, rule, text, text.len() + 1, true);
    lemma_run_defined(arena, untouched(), rule, text, fuel);
}

/// Whether the rules are guarded one after the other.
pub fn are_guarded_in_turn(rules: &Vec<Rule>, arena: &Arena, free: bool) -> (yes: bool)
    ensures
        yes == guarded_in_turn(arena@, rules_model(rules@), free),
    decreases rules, 0int,
{
    proof {
        lemma_rules_model(rules@);
        assert(rules_model(rules@).skip(0) =~= rules_model(rules@));
    }
    let mut now = free;
    let mut i: usize = 0;
    while i < rules.len()
        invariant
            i <= rules.len(),
            rules_model(rules@).len() == rules.len(),
            forall|j: int|
                0 <= j < rules.len() ==> (#[trigger] rules_model(rules@)[j]) == rules@[j]@,
            guarded_in_turn(arena@, rules_model(rules@), free) == guarded_in_turn(
                arena@,
                rules_model(rules@).skip(i as int),
                now,
            ),
        decreases rules.len() - i,
    {
        proof {
            let rest = rules_model(rules@).skip(i as int);
            assert(rest[0] == rules@[i as int]@);
            assert(rest.drop_first() =~= rules_model(rules@).skip(i + 1));
        }
        if !rules[i].is_guarded(arena, now) {
            return false;
        }
        if !now {
            now = rules[i].is_consuming();
        }
        i += 1;
    }
    true
}

/// Whether each of the rules is guarded.
pub fn are_guarded_each(rules: &Vec<Rule>, arena: &Arena, free: bool) -> (yes: bool)
    ensures
        yes == guarded_each(arena@, rules_model(rules@), free),
    decreases rules, 0int,
{
    proof {
        lemma_rules_model(rules@);
        assert(rules_model(rules@).skip(0) =~= rules_model(rules@));
    }
    let mut i: usize = 0;
    while i < rules.len()
        invariant
            i <= rules.len(),
            rules_model(rules@).len() == rules.len(),
            forall|j: int|
                0 <= j < rules.len() ==> (#[trigger] rules_model(rules@)[j]) == rules@[j]@,
            guarded_each(arena@, rules_model(rules@), free) == guarded_each(
                arena@,
                rules_model(rules@).skip(i as int),
                free,
            ),
        decreases rules.len() - i,
    {
        proof {
            let rest = rules_model(rules@).skip(i as int);
            assert(rest[0] == rules@[i as int]@);
            assert(rest.drop_first() =~= rules_model(rules@).skip(i + 1));
        }
        if !rules[i].is_guarded(arena, free) {
            return false;
        }
        i += 1;
    }
    true
}

impl Rule {
    /// Whether the rule is guarded, where `free` says whether a declared
    /// rule may be entered right away.
    pub fn is_guarded(&self, arena: &Arena, free: bool) -> (yes: bool)
        ensures
            yes == guarded(arena@, self@, free),
        decreases self, 1int,
    {
        proof {
            lemma_rule_body(*self);
        }
        match &self.rule {
            Binding::Deferred(slot) => free && arena.is_defined(*slot),
            Binding::Own(matcher) => match &**matcher {
                Matcher::One(_) => true,
                Matcher::Ranges(_) => true,
                Matcher::Str(_) => true,
                Matcher::Eof(_) => true,
                Matcher::Star(m) => m.rule.is_consuming() && m.rule.is_guarded(arena, free),
                Matcher::Plus(m) => m.rule.is_consuming() && m.rule.is_guarded(arena, free),
                Matcher::Opt(m) => m.rule.is_guarded(arena, free),
                Matcher::Custom(m) => m.rule.is_guarded(arena, free),
                Matcher::Sequence(m) => are_guarded_in_turn(&m.rules, arena, free),
                Matcher::Sor(m) => are_guarded_each(&m.options, arena, free),
            },
        }
    }

    /// Matches the rule against `input` if the form of the grammar shows
    /// that the match is defined, and says so: `None` means that it does
    /// not and that nothing was tried, `Some` holds what the match gave.
    pub fn parse_checked<'a>(&self, input: &'a str, arena: &Arena) -> (result: Option<
        Option<Node<'a>>,
    >)
        ensures
            result is Some == (sound(arena@) && guarded(arena@, self@, true)),
            result is Some ==> defined(arena@, untouched(), self@, input@) && tree_of_result(
                result->0,
            ) == outcome(arena@, untouched(), self@, input@),
    {
        if arena.is_sound() && self.is_guarded(arena, true) {
            proof {
                lemma_guarded_rules_are_defined(arena@, self@, input@);
            }
            Some(self.parse(input, arena))
        } else {
            None
        }
    }
}

impl Arena {
    /// Whether every definition in the arena is guarded from its start.
    pub fn is_sound(&self) -> (yes: bool)
        ensures
            yes == sound(self@),
    {
        proof {
            lemma_slots_model(self.slots@);
        }
        let mut i: usize = 0;
        while i < self.slots.len()
            invariant
                i <= self.slots.len(),
                self@.len() == self.slots@.len(),
                forall|j: int|
                    0 <= j < self.slots@.len() ==> (#[trigger] self@[j]) == (match self.slots@[j] {
                        Some(rule) => Some(rule@),
                        None => None,
                    }),
                forall|j: int|
                    0 <= j < i && self@[j] is Some ==> guarded(
                        self@,
                        (#[trigger] self@[j])->0,
                        false,
                    ),
            decreases self.slots.len() - i,
        {
            match &self.slots[i] {
                Some(rule) => {
                    if !rule.is_guarded(self, false) {
                        assert(!guarded(self@, self@[i as int]->0, false));
                        return false;
                    }
                },
                None => {},
            }
            i += 1;
        }
        true
    }
}

} // verus!
