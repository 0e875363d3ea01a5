//! Named rules: a rule wrapped in a node of its own, and rules that are
//! declared first and defined later.
use crate::node::Node;
use crate::registry::Registry;
use crate::rule_handler::Handler;
use super::{Arena, Binding, Custom, Matcher, Parsable, Rule, UninitializedRule};
use super::fuel::{lemma_body_unfold, lemma_run_defined};
use super::model::{Body, rule_model, RuleModel};
use super::semantics::{body_fuel, untouched};
use vstd::prelude::*;

verus! {

impl Custom {
    /// The matcher that wraps `rule`.
    pub fn new(rule: Rule) -> (custom: Custom)
        ensures
            custom.rule == rule,
    {
        Custom { rule }
    }

    /// A named rule: `rule` wrapped in a node of a fresh identifier and the
    /// given name.
    pub fn new_rule(rule: Rule, name: String, registry: &mut Registry) -> (named: Rule)
        requires
            old(registry).wf(),
            old(registry).has_room(),
        ensures
            named@ == (RuleModel {
                body: Body::Custom(Box::new(rule@)),
                id: named.id,
                name: name@,
            }),
            final(registry).allocated(old(registry), named.id),
    {
        let custom = Custom::new(rule);
        let id = registry.next_id();
        Rule::new(Box::new(Matcher::Custom(custom)), id, name)
    }
}

impl Parsable for Custom {
    /// The matcher as a value.
    open spec fn body(&self) -> Body {
        Body::Custom(Box::new(rule_model(self.rule)))
    }

    /// Applies the inner rule. If it matches, its node becomes the only
    /// child of a node with the same content; if not, the match fails.
    fn parse<'a>(&self, input: &'a str, id: usize, name: &String, arena: &Arena) -> (result:
        Option<Node<'a>>)
        decreases body_fuel(arena@, untouched(), self.body(), id, name@, input@), 0int,
    {
        proof {
            let top = body_fuel(arena@, untouched(), self.body(), id, name@, input@);
            lemma_body_unfold(arena@, untouched(), self.body(), id, name@, input@);
            lemma_run_defined(arena@, untouched(), rule_model(self.rule), input@, (top - 1) as nat);
        }
        match self.rule.parse(input, arena) {
            Some(node) => {
                let mut wrapper = Node::new(node.content, id, name);
                wrapper.add_child(node);
                Some(wrapper)
            },
            None => None,
        }
    }

    /// As `parse`, with the callbacks of `handler` run around the rule and
    /// around its rule.
    fn parse_with_handler<'a>(
        &self,
        input: &'a str,
        id: usize,
        name: &String,
        handler: &Handler<'a>,
        arena: &Arena,
    ) -> (result: Option<Node<'a>>)
        decreases body_fuel(arena@, handler.post(), self.body(), id, name@, input@), 0int,
    {
        proof {
            let top = body_fuel(arena@, handler.post(), self.body(), id, name@, input@);
            lemma_body_unfold(arena@, handler.post(), self.body(), id, name@, input@);
            lemma_run_defined(
                arena@,
                handler.post(),
                rule_model(self.rule),
                input@,
                (top - 1) as nat,
            );
        }
        handler.handle_pre_parse(id);
        match self.rule.parse_with_handler(input, handler, arena) {
            Some(node) => {
                let mut wrapper = Node::new(node.content, id, name);
                wrapper.add_child(node);
                handler.handle_success(&mut wrapper);
                Some(wrapper)
            },
            None => {
                handler.handle_failure(id);
                None
            },
        }
    }
}

impl UninitializedRule {
    /// The rule that stands for the declared one wherever it is used.
    pub closed spec fn handle(&self) -> RuleModel {
        self.rule@
    }

    /// The slot of the arena that the definition goes to.
    pub closed spec fn slot(&self) -> nat {
        match self.rule.rule {
            Binding::Deferred(slot) => slot as nat,
            Binding::Own(_) => 0,
        }
    }

    /// The handle refers to the slot and to nothing else.
    pub closed spec fn wf(&self) -> bool {
        self.rule.rule is Deferred
    }

    /// The handle is a rule whose matcher is whatever the slot will hold.
    pub proof fn lemma_handle(&self)
        requires
            self.wf(),
        ensures
            self.handle().body == Body::Deferred(self.slot()),
    {
    }

    /// Declares a rule of the given name: it gets a fresh identifier and an
    /// empty slot, and can be used in other rules before it is defined.
    pub fn new(name: String, registry: &mut Registry, arena: &mut Arena) -> (declared:
        UninitializedRule)
        requires
            old(registry).wf(),
            old(registry).has_room(),
        ensures
            declared.wf(),
            declared.slot() == old(arena)@.len(),
            declared.handle() == (RuleModel {
                body: Body::Deferred(old(arena)@.len()),
                id: declared.handle().id,
                name: name@,
            }),
            final(arena)@ == old(arena)@.push(None),
            final(registry).allocated(old(registry), declared.handle().id),
    {
        UninitializedRule { rule: Rule::new_late_instantiated(name, registry, arena) }
    }

    /// Defines the declared rule as `rule`, wrapped in a node of the
    /// declared rule's identifier and name, and returns the handle.
    pub fn init(&self, rule: Rule, arena: &mut Arena) -> (handle: Rule)
        requires
            self.wf(),
            self.slot() < old(arena)@.len(),
            old(arena)@[self.slot() as int] is None,
        ensures
            handle@ == self.handle(),
            final(arena)@ == old(arena)@.update(self.slot() as int, Some(rule@)),
    {
        match &self.rule.rule {
            Binding::Deferred(slot) => {
                arena.define(*slot, rule);
            },
            Binding::Own(_) => {},
        }
        self.rule.get()
    }

    /// The handle, for use inside other rules.
    pub fn get(&self) -> (handle: Rule)
        ensures
            handle@ == self.handle(),
    {
        self.rule.get()
    }
}

} // verus!
