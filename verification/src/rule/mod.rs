//! Rules: the parsing units a grammar is assembled from.
use crate::node::{Node, tree_of_result};
use crate::registry::Registry;
use crate::rule_handler::Handler;
use fuel::{lemma_body_unfold, lemma_rule_unfold, lemma_run_defined};
use semantics::{body_defined, body_fuel, body_outcome, defined, outcome, rule_fuel, untouched};
use vstd::prelude::*;

pub mod arena;
pub mod consuming;
pub mod custom;
pub mod eof;
pub mod frame;
pub mod fuel;
pub mod guarded;
pub mod laws;
pub mod literal;
pub mod model;
pub mod one;
pub mod opt;
pub mod plus;
pub mod ranges;
pub mod semantics;
pub mod sequence;
pub mod shape;
pub mod sor;
pub mod star;

pub use model::{Body, RuleModel};

verus! {

/// Matches one given character.
pub struct One {
    pub c: char,
}

/// Matches a given literal text.
pub struct Str {
    pub s: String,
}

/// Matches one character out of a list of inclusive ranges.
pub struct Ranges {
    pub ranges: Vec<(char, char)>,
}

/// Matches its rules one after the other.
pub struct Sequence {
    pub rules: Vec<Rule>,
}

/// Ordered choice: matches the first of its options that matches.
pub struct Sor {
    pub options: Vec<Rule>,
}

/// Matches its rule as often as it matches, possibly never.
pub struct Star {
    pub rule: Rule,
}

/// Matches its rule as often as it matches, at least once.
pub struct Plus {
    pub rule: Rule,
}

/// Matches its rule, or nothing.
pub struct Opt {
    pub rule: Rule,
}

/// Matches the end of the text.
pub struct Eof {}

/// Matches its rule and wraps the result in a node of its own.
pub struct Custom {
    pub rule: Rule,
}

/// The closed set of matchers.
pub enum Matcher {
    One(One),
    Str(Str),
    Ranges(Ranges),
    Sequence(Sequence),
    Sor(Sor),
    Star(Star),
    Plus(Plus),
    Opt(Opt),
    Eof(Eof),
    Custom(Custom),
}

/// Where a rule finds its matcher: it owns it, or it names a slot of an
/// [`Arena`] that is filled once the rule's definition is known.
pub enum Binding {
    Own(Box<Matcher>),
    Deferred(usize),
}

/// A matcher together with the identifier and the name its nodes carry.
pub struct Rule {
    pub rule: Binding,
    pub id: usize,
    pub name: String,
}

/// A rule that has been declared and may not have been defined yet.
pub struct UninitializedRule {
    rule: Rule,
}

/// The definitions of the rules that were declared before they were defined.
pub struct Arena {
    slots: Vec<Option<Rule>>,
}

/// What every matcher offers: its value, and matching for a rule of a given
/// identifier and name, without callbacks and with them.
pub trait Parsable {
    /// The matcher as a value.
    spec fn body(&self) -> Body;

    /// Matches against `input`: `None` if the matcher does not match,
    /// otherwise a node with the given identifier and name whose content is
    /// the part of `input` that was consumed.
    fn parse<'a>(&self, input: &'a str, id: usize, name: &String, arena: &Arena) -> (result:
        Option<Node<'a>>)
        requires
            body_defined(arena@, untouched(), self.body(), id, name@, input@),
        ensures
            tree_of_result(result) == body_outcome(
                arena@,
                untouched(),
                self.body(),
                id,
                name@,
                input@,
            ),
    ;

    /// Matches against `input` as `parse` does, and runs the callbacks of
    /// `handler` around every rule that is tried.
    fn parse_with_handler<'a>(
        &self,
        input: &'a str,
        id: usize,
        name: &String,
        handler: &Handler<'a>,
        arena: &Arena,
    ) -> (result: Option<Node<'a>>)
        requires
            body_defined(arena@, handler.post(), self.body(), id, name@, input@),
        ensures
            tree_of_result(result) == body_outcome(
                arena@,
                handler.post(),
                self.body(),
                id,
                name@,
                input@,
            ),
    ;
}

impl Parsable for Matcher {
    open spec fn body(&self) -> Body {
        model::matcher_model(*self)
    }

    fn parse<'a>(&self, input: &'a str, id: usize, name: &String, arena: &Arena) -> (result:
        Option<Node<'a>>)
        decreases body_fuel(arena@, untouched(), self.body(), id, name@, input@), 1int,
    {
        match self {
            Matcher::One(m) => m.parse(input, id, name, arena),
            Matcher::Str(m) => m.parse(input, id, name, arena),
            Matcher::Ranges(m) => m.parse(input, id, name, arena),
            Matcher::Eof(m) => m.parse(input, id, name, arena),
            Matcher::Sequence(m) => m.parse(input, id, name, arena),
            Matcher::Sor(m) => m.parse(input, id, name, arena),
            Matcher::Star(m) => m.parse(input, id, name, arena),
            Matcher::Plus(m) => m.parse(input, id, name, arena),
            Matcher::Opt(m) => m.parse(input, id, name, arena),
            Matcher::Custom(m) => m.parse(input, id, name, arena),
        }
    }

    fn parse_with_handler<'a>(
        &self,
        input: &'a str,
        id: usize,
        name: &String,
        handler: &Handler<'a>,
        arena: &Arena,
    ) -> (result: Option<Node<'a>>)
        decreases body_fuel(arena@, handler.post(), self.body(), id, name@, input@), 1int,
    {
        match self {
            Matcher::One(m) => m.parse_with_handler(input, id, name, handler, arena),
            Matcher::Str(m) => m.parse_with_handler(input, id, name, handler, arena),
            Matcher::Ranges(m) => m.parse_with_handler(input, id, name, handler, arena),
            Matcher::Eof(m) => m.parse_with_handler(input, id, name, handler, arena),
            Matcher::Sequence(m) => m.parse_with_handler(input, id, name, handler, arena),
            Matcher::Sor(m) => m.parse_with_handler(input, id, name, handler, arena),
            Matcher::Star(m) => m.parse_with_handler(input, id, name, handler, arena),
            Matcher::Plus(m) => m.parse_with_handler(input, id, name, handler, arena),
            Matcher::Opt(m) => m.parse_with_handler(input, id, name, handler, arena),
            Matcher::Custom(m) => m.parse_with_handler(input, id, name, handler, arena),
        }
    }
}

impl View for Rule {
    type V = RuleModel;

    open spec fn view(&self) -> RuleModel {
        model::rule_model(*self)
    }
}

impl View for Matcher {
    type V = Body;

    open spec fn view(&self) -> Body {
        model::matcher_model(*self)
    }
}

impl View for Arena {
    type V = Seq<Option<RuleModel>>;

    closed spec fn view(&self) -> Seq<Option<RuleModel>> {
        model::slots_model(self.slots@)
    }
}

impl Matcher {
    /// A copy of the matcher.
    pub fn duplicate(&self) -> (copy: Matcher)
        ensures
            copy@ == self@,
        decreases self,
    {
        match self {
            Matcher::One(m) => Matcher::One(One { c: m.c }),
            Matcher::Str(m) => Matcher::Str(Str { s: m.s.clone() }),
            Matcher::Ranges(m) => {
                let mut ranges: Vec<(char, char)> = Vec::new();
                let mut i: usize = 0;
                while i < m.ranges.len()
                    invariant
                        i <= m.ranges.len(),
                        ranges@ == m.ranges@.take(i as int),
                    decreases m.ranges.len() - i,
                {
                    ranges.push(m.ranges[i]);
                    proof {
                        assert(ranges@ =~= m.ranges@.take(i + 1));
                    }
                    i += 1;
                }
                proof {
                    assert(m.ranges@.take(i as int) =~= m.ranges@);
                }
                Matcher::Ranges(Ranges { ranges })
            },
            Matcher::Sequence(m) => Matcher::Sequence(Sequence { rules: duplicates(&m.rules) }),
            Matcher::Sor(m) => Matcher::Sor(Sor { options: duplicates(&m.options) }),
            Matcher::Star(m) => Matcher::Star(Star { rule: m.rule.get() }),
            Matcher::Plus(m) => Matcher::Plus(Plus { rule: m.rule.get() }),
            Matcher::Opt(m) => Matcher::Opt(Opt { rule: m.rule.get() }),
            Matcher::Eof(_) => Matcher::Eof(Eof {  }),
            Matcher::Custom(m) => Matcher::Custom(Custom { rule: m.rule.get() }),
        }
    }
}

/// Copies of the rules, in order.
pub fn duplicates(rules: &Vec<Rule>) -> (copies: Vec<Rule>)
    ensures
        model::rules_model(copies@) == model::rules_model(rules@),
    decreases rules,
{
    let mut copies: Vec<Rule> = Vec::new();
    let mut i: usize = 0;
    proof {
        model::lemma_rules_model(rules@);
    }
    while i < rules.len()
        invariant
            i <= rules.len(),
            copies@.len() == i,
            forall|j: int| 0 <= j < i ==> (#[trigger] copies@[j])@ == rules@[j]@,
        decreases rules.len() - i,
    {
        copies.push(rules[i].get());
        i += 1;
    }
    proof {
        model::lemma_rules_model(copies@);
        assert(model::rules_model(copies@) =~= model::rules_model(rules@));
    }
    copies
}

impl Rule {
    /// A rule with the given matcher, identifier and name.
    pub fn new(rule: Box<Matcher>, id: usize, name: String) -> (made: Rule)
        ensures
            made@ == (RuleModel { body: rule@, id, name: name@ }),
            made.id == id,
            made.name == name,
    {
        Rule { rule: Binding::Own(rule), id, name }
    }

    /// A rule of the given name with a fresh identifier, whose matcher is
    /// whatever a new slot of `arena` is filled with later.
    pub fn new_late_instantiated(name: String, registry: &mut Registry, arena: &mut Arena) -> (made:
        Rule)
        requires
            old(registry).wf(),
            old(registry).has_room(),
        ensures
            made@ == (RuleModel {
                body: Body::Deferred(old(arena)@.len()),
                id: made.id,
                name: name@,
            }),
            made.rule is Deferred,
            final(arena)@ == old(arena)@.push(None),
            final(registry).allocated(old(registry), made.id),
    {
        let slot = arena.declare();
        let id = registry.next_id();
        Rule { rule: Binding::Deferred(slot), id, name }
    }

    /// A copy of the rule. A copy of a declared rule refers to the same
    /// slot.
    pub fn get(&self) -> (copy: Rule)
        ensures
            copy@ == self@,
            copy.rule is Deferred == self.rule is Deferred,
        decreases self,
    {
        let rule = match &self.rule {
            Binding::Own(matcher) => Binding::Own(Box::new(matcher.duplicate())),
            Binding::Deferred(slot) => Binding::Deferred(*slot),
        };
        Rule { rule, id: self.id, name: self.name.clone() }
    }

    /// Matches the rule against `input`: `None` if it does not match,
    /// otherwise a node whose content is the part of `input` that was
    /// consumed.
    pub fn parse<'a>(&self, input: &'a str, arena: &Arena) -> (result: Option<Node<'a>>)
        requires
            defined(arena@, untouched(), self@, input@),
        ensures
            tree_of_result(result) == outcome(arena@, untouched(), self@, input@),
        decreases rule_fuel(arena@, untouched(), self@, input@), 0int,
    {
        proof {
            let body = self@.body;
            lemma_rule_unfold(arena@, untouched(), self@, input@);
            lemma_body_unfold(arena@, untouched(), body, self.id, self.name@, input@);
            if let Body::Deferred(slot) = body {
                let fuel = body_fuel(arena@, untouched(), body, self.id, self.name@, input@);
                lemma_run_defined(
                    arena@,
                    untouched(),
                    arena@[slot as int]->0,
                    input@,
                    (fuel - 1) as nat,
                );
            }
        }
        match &self.rule {
            Binding::Own(matcher) => matcher.parse(input, self.id, &self.name, arena),
            Binding::Deferred(slot) => match arena.get(*slot) {
                Some(inner) => match inner.parse(input, arena) {
                    Some(node) => {
                        let mut wrapper = Node::new(node.content, self.id, &self.name);
                        wrapper.add_child(node);
                        Some(wrapper)
                    },
                    None => None,
                },
                None => None,
            },
        }
    }

    /// Matches the rule against `input` as `parse` does, and runs the
    /// callbacks of `handler` around every rule that is tried: those
    /// registered for attempts before it, and afterwards those for its
    /// failure, or those for its success on the node it built. The node that
    /// a success callback leaves is the one that the match goes on with.
    pub fn parse_with_handler<'a>(
        &self,
        input: &'a str,
        handler: &Handler<'a>,
        arena: &Arena,
    ) -> (result: Option<Node<'a>>)
        requires
            defined(arena@, handler.post(), self@, input@),
        ensures
            tree_of_result(result) == outcome(arena@, handler.post(), self@, input@),
            handler.transparent() ==> tree_of_result(result) == outcome(
                arena@,
                untouched(),
                self@,
                input@,
            ),
        decreases rule_fuel(arena@, handler.post(), self@, input@), 0int,
    {
        proof {
            if handler.transparent() {
                handler.lemma_transparent_post();
            }
            let body = self@.body;
            lemma_rule_unfold(arena@, handler.post(), self@, input@);
            lemma_body_unfold(arena@, handler.post(), body, self.id, self.name@, input@);
            if let Body::Deferred(slot) = body {
                let fuel = body_fuel(arena@, handler.post(), body, self.id, self.name@, input@);
                lemma_run_defined(
                    arena@,
                    handler.post(),
                    arena@[slot as int]->0,
                    input@,
                    (fuel - 1) as nat,
                );
            }
        }
        match &self.rule {
            Binding::Own(matcher) => matcher.parse_with_handler(
                input,
                self.id,
                &self.name,
                handler,
                arena,
            ),
            Binding::Deferred(slot) => match arena.get(*slot) {
                Some(inner) => {
                    handler.handle_pre_parse(self.id);
                    match inner.parse_with_handler(input, handler, arena) {
                        Some(node) => {
                            let mut wrapper = Node::new(node.content, self.id, &self.name);
                            wrapper.add_child(node);
                            handler.handle_success(&mut wrapper);
                            Some(wrapper)
                        },
                        None => {
                            handler.handle_failure(self.id);
                            None
                        },
                    }
                },
                None => None,
            },
        }
    }
}

} // verus!
