//! The mathematical value of a rule.
use super::{Binding, Matcher, Rule};
use vstd::prelude::*;

verus! {

/// What a rule does, as a value.
pub ghost enum Body {
    /// One given character.
    One(char),
    /// A literal text.
    Str(Seq<char>),
    /// One character out of inclusive ranges.
    Ranges(Seq<(char, char)>),
    /// The rules one after the other.
    Sequence(Seq<RuleModel>),
    /// The first option that matches.
    Sor(Seq<RuleModel>),
    /// Zero or more repetitions.
    Star(Box<RuleModel>),
    /// One or more repetitions.
    Plus(Box<RuleModel>),
    /// The rule or nothing.
    Opt(Box<RuleModel>),
    /// The end of the text.
    Eof,
    /// The rule, wrapped in a node.
    Custom(Box<RuleModel>),
    /// The rule in the given slot of the arena, wrapped in a node.
    Deferred(nat),
}

/// The value of a [`Rule`].
pub ghost struct RuleModel {
    pub body: Body,
    pub id: usize,
    pub name: Seq<char>,
}

/// The value of a rule.
pub open spec fn rule_model(rule: Rule) -> RuleModel
    decreases rule, 0int,
{
    RuleModel {
        body: match rule.rule {
            Binding::Own(matcher) => matcher_model(*matcher),
            Binding::Deferred(slot) => Body::Deferred(slot as nat),
        },
        id: rule.id,
        name: rule.name@,
    }
}

/// The value of a matcher.
pub open spec fn matcher_model(matcher: Matcher) -> Body
    decreases matcher, 0int,
{
    match matcher {
        Matcher::One(m) => Body::One(m.c),
        Matcher::Str(m) => Body::Str(m.s@),
        Matcher::Ranges(m) => Body::Ranges(m.ranges@),
        Matcher::Sequence(m) => Body::Sequence(rules_model(m.rules@)),
        Matcher::Sor(m) => Body::Sor(rules_model(m.options@)),
        Matcher::Star(m) => Body::Star(Box::new(rule_model(m.rule))),
        Matcher::Plus(m) => Body::Plus(Box::new(rule_model(m.rule))),
        Matcher::Opt(m) => Body::Opt(Box::new(rule_model(m.rule))),
        Matcher::Eof(_) => Body::Eof,
        Matcher::Custom(m) => Body::Custom(Box::new(rule_model(m.rule))),
    }
}

/// The values of a list of rules, in order.
pub open spec fn rules_model(rules: Seq<Rule>) -> Seq<RuleModel>
    decreases rules, 1int,
{
    if rules.len() == 0 {
        Seq::empty()
    } else {
        rules_model(rules.drop_last()).push(rule_model(rules.last()))
    }
}

/// The values of the slots of an arena.
pub open spec fn slots_model(slots: Seq<Option<Rule>>) -> Seq<Option<RuleModel>> {
    Seq::new(
        slots.len(),
        |i: int|
            match slots[i] {
                Some(rule) => Some(rule_model(rule)),
                None => None,
            },
    )
}

/// `slots_model` keeps the length and works slot by slot.
pub proof fn lemma_slots_model(slots: Seq<Option<Rule>>)
    ensures
        slots_model(slots).len() == slots.len(),
        forall|i: int|
            0 <= i < slots.len() ==> (#[trigger] slots_model(slots)[i]) == (match slots[i] {
                Some(rule) => Some(rule_model(rule)),
                None => None,
            }),
{
}

/// `rules_model` keeps the length and works element by element.
pub proof fn lemma_rules_model(rules: Seq<Rule>)
    ensures
        rules_model(rules).len() == rules.len(),
        forall|i: int| 0 <= i < rules.len() ==> (#[trigger] rules_model(rules)[i]) == rules[i]@,
    decreases rules.len(),
{
    if rules.len() > 0 {
        lemma_rules_model(rules.drop_last());
    }
}

} // verus!
