//! The rule that matches its rule or nothing.
use crate::node::Node;
use crate::registry::{Kind, Registry};
use crate::rule_handler::Handler;
use super::{Arena, Matcher, Opt, Parsable, Rule};
use super::fuel::{lemma_body_unfold, lemma_run_defined};
use super::model::{Body, rule_model, RuleModel};
use super::semantics::{body_fuel, untouched};
use vstd::prelude::*;

verus! {

impl Opt {
    /// An unnamed rule that matches `inner` or nothing.
    pub fn rule(inner: Rule, registry: &mut Registry) -> (rule: Rule)
        requires
            old(registry).wf(),
            old(registry).assigned(Kind::Opt) is None ==> old(registry).has_room(),
        ensures
            rule@ == (RuleModel {
                body: Body::Opt(Box::new(inner@)),
                id: rule.id,
                name: Kind::Opt.label(),
            }),
            final(registry).memoized(old(registry), Kind::Opt, rule.id),
    {
        let id = registry.singleton_id(Kind::Opt);
        Rule::new(Box::new(Matcher::Opt(Opt { rule: inner })), id, Kind::Opt.default_name())
    }
}

impl Parsable for Opt {
    /// The matcher as a value.
    open spec fn body(&self) -> Body {
        Body::Opt(Box::new(rule_model(self.rule)))
    }

    /// Applies the rule once. If it matches, its node is the result as it
    /// is; if not, the result is an empty node of this rule. Never fails.
    fn parse<'a>(&self, input: &'a str, id: usize, name: &String, arena: &Arena) -> (result:
        Option<Node<'a>>)
        decreases body_fuel(arena@, untouched(), self.body(), id, name@, input@), 0int,
    {
        proof {
            let top = body_fuel(arena@, untouched(), self.body(), id, name@, input@);
            lemma_body_unfold(arena@, untouched(), self.body(), id, name@, input@);
            lemma_run_defined(arena@, untouched(), rule_model(self.rule), input@, (top - 1) as nat);
        }
        match self.rule.parse(input, arena) {
            Some(node) => Some(node),
            None => Some(Node::new_empty(id, name)),
        }
    }

    /// As `parse`, with the callbacks of `handler` run around the rule and
    /// around its rule. The success callbacks run on the result in either
    /// case.
    fn parse_with_handler<'a>(
        &self,
        input: &'a str,
        id: usize,
        name: &String,
        handler: &Handler<'a>,
        arena: &Arena,
    ) -> (result: Option<Node<'a>>)
        decreases body_fuel(arena@, handler.post(), self.body(), id, name@, input@), 0int,
    {
        proof {
            let top = body_fuel(arena@, handler.post(), self.body(), id, name@, input@);
            lemma_body_unfold(arena@, handler.post(), self.body(), id, name@, input@);
            lemma_run_defined(
                arena@,
                handler.post(),
                rule_model(self.rule),
                input@,
                (top - 1) as nat,
            );
        }
        handler.handle_pre_parse(id);
        match self.rule.parse_with_handler(input, handler, arena) {
            Some(node) => {
                let mut success = node;
                handler.handle_success(&mut success);
                Some(success)
            },
            None => {
                let mut failure = Node::new_empty(id, name);
                handler.handle_success(&mut failure);
                Some(failure)
            },
        }
    }
}

} // verus!
