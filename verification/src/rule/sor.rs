//! Ordered choice: the rule that matches the first of its options that
//! matches.
use crate::node::Node;
use crate::registry::{Kind, Registry};
use crate::rule_handler::Handler;
use super::{Arena, Matcher, Parsable, Rule, Sor};
use super::fuel::{lemma_body_unfold, lemma_run_defined};
use super::model::{Body, lemma_rules_model, RuleModel, rules_model};
use super::semantics::{body_fuel, run_sor, untouched};
use vstd::prelude::*;

verus! {

impl Sor {
    /// An unnamed rule that matches the first of `options` that matches.
    pub fn rule(options: Vec<Rule>, registry: &mut Registry) -> (rule: Rule)
        requires
            old(registry).wf(),
            old(registry).assigned(Kind::Sor) is None ==> old(registry).has_room(),
        ensures
            rule@ == (RuleModel {
                body: Body::Sor(rules_model(options@)),
                id: rule.id,
                name: Kind::Sor.label(),
            }),
            final(registry).memoized(old(registry), Kind::Sor, rule.id),
    {
        let id = registry.singleton_id(Kind::Sor);
        Rule::new(Box::new(Matcher::Sor(Sor { options })), id, Kind::Sor.default_name())
    }
}

impl Parsable for Sor {
    /// The matcher as a value.
    open spec fn body(&self) -> Body {
        Body::Sor(rules_model(self.options@))
    }

    /// Tries the options in order on the same input. The first one that
    /// matches wins: its node becomes the only child of a node with the same
    /// content, and the options after it are not tried. Fails if none
    /// matches.
    fn parse<'a>(&self, input: &'a str, id: usize, name: &String, arena: &Arena) -> (result:
        Option<Node<'a>>)
        decreases body_fuel(arena@, untouched(), self.body(), id, name@, input@), 0int,
    {
        let ghost post = untouched();
        let ghost options = rules_model(self.options@);
        let ghost top = body_fuel(arena@, post, self.body(), id, name@, input@);
        let ghost mut fuel: nat = (top - 1) as nat;
        proof {
            lemma_body_unfold(arena@, post, self.body(), id, name@, input@);
            lemma_rules_model(self.options@);
            assert(options.skip(0) =~= options);
        }
        let mut i: usize = 0;
        while i < self.options.len()
            invariant
                i <= self.options.len(),
                post == untouched(),
                options == rules_model(self.options@),
                options.len() == self.options.len(),
                forall|j: int|
                    0 <= j < options.len() ==> (#[trigger] options[j]) == self.options@[j]@,
                top == body_fuel(arena@, post, self.body(), id, name@, input@),
                fuel < top,
                run_sor(arena@, post, options.skip(i as int), input@, fuel) is Some,
                run_sor(arena@, post, options, input@, (top - 1) as nat) == run_sor(
                    arena@,
                    post,
                    options.skip(i as int),
                    input@,
                    fuel,
                ),
            decreases self.options.len() - i,
        {
            proof {
                assert(options.skip(i as int)[0] == options[i as int]);
                lemma_run_defined(arena@, post, options[i as int], input@, (fuel - 1) as nat);
            }
            match self.options[i].parse(input, arena) {
                Some(node) => {
                    let mut wrapper = Node::new(node.content, id, name);
                    wrapper.add_child(node);
                    return Some(wrapper);
                },
                None => {},
            }
            proof {
                assert(options.skip(i as int).drop_first() =~= options.skip(i as int + 1));
                fuel = (fuel - 1) as nat;
            }
            i += 1;
        }
        None
    }

    /// As `parse`, with the callbacks of `handler` run around the rule and
    /// around each option that is tried.
    fn parse_with_handler<'a>(
        &self,
        input: &'a str,
        id: usize,
        name: &String,
        handler: &Handler<'a>,
        arena: &Arena,
    ) -> (result: Option<Node<'a>>)
        decreases body_fuel(arena@, handler.post(), self.body(), id, name@, input@), 0int,
    {
        let ghost post = handler.post();
        let ghost options = rules_model(self.options@);
        let ghost top = body_fuel(arena@, post, self.body(), id, name@, input@);
        let ghost mut fuel: nat = (top - 1) as nat;
        proof {
            lemma_body_unfold(arena@, post, self.body(), id, name@, input@);
            lemma_rules_model(self.options@);
            assert(options.skip(0) =~= options);
        }
        handler.handle_pre_parse(id);
        let mut i: usize = 0;
        while i < self.options.len()
            invariant
                i <= self.options.len(),
                post == handler.post(),
                options == rules_model(self.options@),
                options.len() == self.options.len(),
                forall|j: int|
                    0 <= j < options.len() ==> (#[trigger] options[j]) == self.options@[j]@,
                top == body_fuel(arena@, post, self.body(), id, name@, input@),
                fuel < top,
                run_sor(arena@, post, options.skip(i as int), input@, fuel) is Some,
                run_sor(arena@, post, options, input@, (top - 1) as nat) == run_sor(
                    arena@,
                    post,
                    options.skip(i as int),
                    input@,
                    fuel,
                ),
            decreases self.options.len() - i,
        {
            proof {
                assert(options.skip(i as int)[0] == options[i as int]);
                lemma_run_defined(arena@, post, options[i as int], input@, (fuel - 1) as nat);
            }
            match self.options[i].parse_with_handler(input, handler, arena) {
                Some(node) => {
                    let mut wrapper = Node::new(node.content, id, name);
                    wrapper.add_child(node);
                    handler.handle_success(&mut wrapper);
                    return Some(wrapper);
                },
                None => {},
            }
            proof {
                assert(options.skip(i as int).drop_first() =~= options.skip(i as int + 1));
                fuel = (fuel - 1) as nat;
            }
            i += 1;
        }
        handler.handle_failure(id);
        None
    }
}

} // verus!
