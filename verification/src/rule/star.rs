//! The rule that matches its rule zero or more times.
use crate::node::{Node, Tree};
use crate::registry::{Kind, Registry};
use crate::rule_handler::Handler;
use crate::text::{char_len, head, tail};
use super::{Arena, Matcher, Parsable, Rule, Star};
use super::fuel::{lemma_body_unfold, lemma_run_defined};
use super::model::{Body, rule_model, RuleModel};
use super::semantics::{body_fuel, run_star, total_len, untouched};
use super::sequence::lemma_total_len_push;
use vstd::prelude::*;

verus! {

/// The trees built so far, followed by what the rest of the repetition
/// builds.
pub open spec fn then(built: Seq<Tree>, rest: Option<Seq<Tree>>) -> Option<Seq<Tree>> {
    match rest {
        None => None,
        Some(more) => Some(built + more),
    }
}

impl Star {
    /// An unnamed rule that matches `inner` zero or more times.
    pub fn rule(inner: Rule, registry: &mut Registry) -> (rule: Rule)
        requires
            old(registry).wf(),
            old(registry).assigned(Kind::Star) is None ==> old(registry).has_room(),
        ensures
            rule@ == (RuleModel {
                body: Body::Star(Box::new(inner@)),
                id: rule.id,
                name: Kind::Star.label(),
            }),
            final(registry).memoized(old(registry), Kind::Star, rule.id),
    {
        let id = registry.singleton_id(Kind::Star);
        Rule::new(Box::new(Matcher::Star(Star { rule: inner })), id, Kind::Star.default_name())
    }
}

impl Parsable for Star {
    /// The matcher as a value.
    open spec fn body(&self) -> Body {
        Body::Star(Box::new(rule_model(self.rule)))
    }

    /// Applies the rule again and again, each time to what is left, until it
    /// fails. Always succeeds: the node covers what was consumed and has one
    /// child for each application that matched.
    fn parse<'a>(&self, input: &'a str, id: usize, name: &String, arena: &Arena) -> (result:
        Option<Node<'a>>)
        decreases body_fuel(arena@, untouched(), self.body(), id, name@, input@), 0int,
    {
        let ghost post = untouched();
        let ghost rule = rule_model(self.rule);
        let ghost top = body_fuel(arena@, post, self.body(), id, name@, input@);
        let ghost mut fuel: nat = (top - 1) as nat;
        proof {
            lemma_body_unfold(arena@, post, self.body(), id, name@, input@);
            assert(input@.skip(0) =~= input@);
        }
        let total = char_len(input);
        let mut node = Node::new_empty(id, name);
        let mut size: usize = 0;
        let mut more = true;
        while more
            invariant
                size <= total,
                total == input@.len(),
                post == untouched(),
                rule == rule_model(self.rule),
                top == body_fuel(arena@, post, self.body(), id, name@, input@),
                fuel < top,
                run_star(arena@, post, rule, input@, (top - 1) as nat) is Some,
                more ==> run_star(arena@, post, rule, input@.skip(size as int), fuel) is Some,
                more ==> run_star(arena@, post, rule, input@, (top - 1) as nat) == then(
                    node@.children,
                    run_star(arena@, post, rule, input@.skip(size as int), fuel),
                ),
                !more ==> run_star(arena@, post, rule, input@, (top - 1) as nat) == Some(
                    node@.children,
                ),
                size == total_len(node@.children),
                node@.type_id == id,
                node@.type_label == name@,
            decreases
                    (if more {
                        fuel + 1
                    } else {
                        0
                    }),
        {
            let rest = tail(input, size, total);
            proof {
                lemma_run_defined(arena@, post, rule, rest@, (fuel - 1) as nat);
            }
            match self.rule.parse(rest, arena) {
                Some(child) => {
                    let ghost before = node@.children;
                    let ghost step = input@.skip(size as int).skip(child@.content.len() as int);
                    let ghost later = run_star(arena@, post, rule, step, (fuel - 1) as nat);
                    size = size + char_len(child.content);
                    node.add_child(child);
                    proof {
                        assert(step =~= input@.skip(size as int));
                        lemma_total_len_push(before, child@);
                        if let Some(more_items) = later {
                            assert(before + (seq![child@] + more_items) =~= before.push(child@)
                                + more_items);
                        }
                        fuel = (fuel - 1) as nat;
                    }
                },
                None => {
                    proof {
                        assert(node@.children + Seq::<Tree>::empty() =~= node@.children);
                    }
                    more = false;
                },
            }
        }
        node.content = head(input, size);
        Some(node)
    }

    /// As `parse`, with the callbacks of `handler` run around the rule and
    /// around each application of its rule.
    fn parse_with_handler<'a>(
        &self,
        input: &'a str,
        id: usize,
        name: &String,
        handler: &Handler<'a>,
        arena: &Arena,
    ) -> (result: Option<Node<'a>>)
        decreases body_fuel(arena@, handler.post(), self.body(), id, name@, input@), 0int,
    {
        let ghost post = handler.post();
        let ghost rule = rule_model(self.rule);
        let ghost top = body_fuel(arena@, post, self.body(), id, name@, input@);
        let ghost mut fuel: nat = (top - 1) as nat;
        proof {
            lemma_body_unfold(arena@, post, self.body(), id, name@, input@);
            assert(input@.skip(0) =~= input@);
        }
        handler.handle_pre_parse(id);
        let total = char_len(input);
        let mut node = Node::new_empty(id, name);
        let mut size: usize = 0;
        let mut more = true;
        while more
            invariant
                size <= total,
                total == input@.len(),
                post == handler.post(),
                rule == rule_model(self.rule),
                top == body_fuel(arena@, post, self.body(), id, name@, input@),
                fuel < top,
                run_star(arena@, post, rule, input@, (top - 1) as nat) is Some,
                more ==> run_star(arena@, post, rule, input@.skip(size as int), fuel) is Some,
                more ==> run_star(arena@, post, rule, input@, (top - 1) as nat) == then(
                    node@.children,
                    run_star(arena@, post, rule, input@.skip(size as int), fuel),
                ),
                !more ==> run_star(arena@, post, rule, input@, (top - 1) as nat) == Some(
                    node@.children,
                ),
                size == total_len(node@.children),
                node@.type_id == id,
                node@.type_label == name@,
            decreases
                    (if more {
                        fuel + 1
                    } else {
                        0
                    }),
        {
            let rest = tail(input, size, total);
            proof {
                lemma_run_defined(arena@, post, rule, rest@, (fuel - 1) as nat);
            }
            match self.rule.parse_with_handler(rest, handler, arena) {
                Some(child) => {
                    let ghost before = node@.children;
                    let ghost step = input@.skip(size as int).skip(child@.content.len() as int);
                    let ghost later = run_star(arena@, post, rule, step, (fuel - 1) as nat);
                    size = size + char_len(child.content);
                    node.add_child(child);
                    proof {
                        assert(step =~= input@.skip(size as int));
                        lemma_total_len_push(before, child@);
                        if let Some(more_items) = later {
                            assert(before + (seq![child@] + more_items) =~= before.push(child@)
                                + more_items);
                        }
                        fuel = (fuel - 1) as nat;
                    }
                },
                None => {
                    proof {
                        assert(node@.children + Seq::<Tree>::empty() =~= node@.children);
                    }
                    more = false;
                },
            }
        }
        node.content = head(input, size);
        handler.handle_success(&mut node);
        Some(node)
    }
}

} // verus!
