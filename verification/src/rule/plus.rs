//! The rule that matches its rule one or more times.
use crate::node::{Node, Tree};
use crate::registry::{Kind, Registry};
use crate::rule_handler::Handler;
use crate::text::{char_len, head, tail};
use super::{Arena, Matcher, Parsable, Plus, Rule};
use super::fuel::{lemma_body_unfold, lemma_run_defined};
use super::model::{Body, rule_model, RuleModel};
use super::semantics::{body_fuel, run_star, total_len, untouched};
use super::sequence::lemma_total_len_push;
use super::star::then;
use vstd::prelude::*;

verus! {

impl Plus {
    /// An unnamed rule that matches `inner` one or more times.
    pub fn rule(inner: Rule, registry: &mut Registry) -> (rule: Rule)
        requires
            old(registry).wf(),
            old(registry).assigned(Kind::Plus) is None ==> old(registry).has_room(),
        ensures
            rule@ == (RuleModel {
                body: Body::Plus(Box::new(inner@)),
                id: rule.id,
                name: Kind::Plus.label(),
            }),
            final(registry).memoized(old(registry), Kind::Plus, rule.id),
    {
        let id = registry.singleton_id(Kind::Plus);
        Rule::new(Box::new(Matcher::Plus(Plus { rule: inner })), id, Kind::Plus.default_name())
    }
}

impl Parsable for Plus {
    /// The matcher as a value.
    open spec fn body(&self) -> Body {
        Body::Plus(Box::new(rule_model(self.rule)))
    }

    /// Like zero-or-more, but the first application has to match: fails if
    /// and only if it does not.
    fn parse<'a>(&self, input: &'a str, id: usize, name: &String, arena: &Arena) -> (result:
        Option<Node<'a>>)
        decreases body_fuel(arena@, untouched(), self.body(), id, name@, input@), 0int,
    {
        let ghost post = untouched();
        let ghost rule = rule_model(self.rule);
        let ghost top = body_fuel(arena@, post, self.body(), id, name@, input@);
        let ghost mut fuel: nat = (top - 2) as nat;
        proof {
            lemma_body_unfold(arena@, post, self.body(), id, name@, input@);
            lemma_run_defined(arena@, post, rule, input@, fuel);
        }
        let total = char_len(input);
        let mut node = Node::new_empty(id, name);
        let mut size: usize = 0;
        match self.rule.parse(input, arena) {
            Some(child) => {
                let ghost before = node@.children;
                size = size + char_len(child.content);
                node.add_child(child);
                proof {
                    lemma_total_len_push(before, child@);
                    assert(before.push(child@) =~= seq![child@]);
                    assert(input@.skip(size as int) =~= input@.skip(child@.content.len() as int));
                    let tail = run_star(arena@, post, rule, input@.skip(size as int), fuel);
                    assert(tail is Some);
                    assert(seq![child@] + tail->0 =~= node@.children + tail->0);
                }
            },
            None => {
                return None;
            },
        }
        let mut more = true;
        while more
            invariant
                size <= total,
                total == input@.len(),
                post == untouched(),
                rule == rule_model(self.rule),
                top == body_fuel(arena@, post, self.body(), id, name@, input@),
                fuel < top,
                node@.children.len() > 0,
                run_star(arena@, post, rule, input@, (top - 1) as nat) is Some,
                more ==> run_star(arena@, post, rule, input@.skip(size as int), fuel) is Some,
                more ==> run_star(arena@, post, rule, input@, (top - 1) as nat) == then(
                    node@.children,
                    run_star(arena@, post, rule, input@.skip(size as int), fuel),
                ),
                !more ==> run_star(arena@, post, rule, input@, (top - 1) as nat) == Some(
                    node@.children,
                ),
                size == total_len(node@.children),
                node@.type_id == id,
                node@.type_label == name@,
            decreases
                    (if more {
                        fuel + 1
                    } else {
                        0
                    }),
        {
            let rest = tail(input, size, total);
            proof {
                lemma_run_defined(arena@, post, rule, rest@, (fuel - 1) as nat);
            }
            match self.rule.parse(rest, arena) {
                Some(child) => {
                    let ghost before = node@.children;
                    let ghost step = input@.skip(size as int).skip(child@.content.len() as int);
                    let ghost later = run_star(arena@, post, rule, step, (fuel - 1) as nat);
                    size = size + char_len(child.content);
                    node.add_child(child);
                    proof {
                        assert(step =~= input@.skip(size as int));
                        lemma_total_len_push(before, child@);
                        if let Some(more_items) = later {
                            assert(before + (seq![child@] + more_items) =~= before.push(child@)
                                + more_items);
                        }
                        fuel = (fuel - 1) as nat;
                    }
                },
                None => {
                    proof {
                        assert(node@.children + Seq::<Tree>::empty() =~= node@.children);
                    }
                    more = false;
                },
            }
        }
        node.content = head(input, size);
        Some(node)
    }

    /// As `parse`, with the callbacks of `handler` run around the rule and
    /// around each application of its rule.
    fn parse_with_handler<'a>(
        &self,
        input: &'a str,
        id: usize,
        name: &String,
        handler: &Handler<'a>,
        arena: &Arena,
    ) -> (result: Option<Node<'a>>)
        decreases body_fuel(arena@, handler.post(), self.body(), id, name@, input@), 0int,
    {
        let ghost post = handler.post();
        let ghost rule = rule_model(self.rule);
        let ghost top = body_fuel(arena@, post, self.body(), id, name@, input@);
        let ghost mut fuel: nat = (top - 2) as nat;
        proof {
            lemma_body_unfold(arena@, post, self.body(), id, name@, input@);
            lemma_run_defined(arena@, post, rule, input@, fuel);
        }
        handler.handle_pre_parse(id);
        let total = char_len(input);
        let mut node = Node::new_empty(id, name);
        let mut size: usize = 0;
        match self.rule.parse_with_handler(input, handler, arena) {
            Some(child) => {
                let ghost before = node@.children;
                size = size + char_len(child.content);
                node.add_child(child);
                proof {
                    lemma_total_len_push(before, child@);
                    assert(before.push(child@) =~= seq![child@]);
                    assert(input@.skip(size as int) =~= input@.skip(child@.content.len() as int));
                    let tail = run_star(arena@, post, rule, input@.skip(size as int), fuel);
                    assert(tail is Some);
                    assert(seq![child@] + tail->0 =~= node@.children + tail->0);
                }
            },
            None => {
                handler.handle_failure(id);
                return None;
            },
        }
        let mut more = true;
        while more
            invariant
                size <= total,
                total == input@.len(),
                post == handler.post(),
                rule == rule_model(self.rule),
                top == body_fuel(arena@, post, self.body(), id, name@, input@),
                fuel < top,
                node@.children.len() > 0,
                run_star(arena@, post, rule, input@, (top - 1) as nat) is Some,
                more ==> run_star(arena@, post, rule, input@.skip(size as int), fuel) is Some,
                more ==> run_star(arena@, post, rule, input@, (top - 1) as nat) == then(
                    node@.children,
                    run_star(arena@, post, rule, input@.skip(size as int), fuel),
                ),
                !more ==> run_star(arena@, post, rule, input@, (top - 1) as nat) == Some(
                    node@.children,
                ),
                size == total_len(node@.children),
                node@.type_id == id,
                node@.type_label == name@,
            decreases
                    (if more {
                        fuel + 1
                    } else {
                        0
                    }),
        {
            let rest = tail(input, size, total);
            proof {
                lemma_run_defined(arena@, post, rule, rest@, (fuel - 1) as nat);
            }
            match self.rule.parse_with_handler(rest, handler, arena) {
                Some(child) => {
                    let ghost before = node@.children;
                    let ghost step = input@.skip(size as int).skip(child@.content.len() as int);
                    let ghost later = run_star(arena@, post, rule, step, (fuel - 1) as nat);
                    size = size + char_len(child.content);
                    node.add_child(child);
                    proof {
                        assert(step =~= input@.skip(size as int));
                        lemma_total_len_push(before, child@);
                        if let Some(more_items) = later {
                            assert(before + (seq![child@] + more_items) =~= before.push(child@)
                                + more_items);
                        }
                        fuel = (fuel - 1) as nat;
                    }
                },
                None => {
                    proof {
                        assert(node@.children + Seq::<Tree>::empty() =~= node@.children);
                    }
                    more = false;
                },
            }
        }
        node.content = head(input, size);
        handler.handle_success(&mut node);
        Some(node)
    }
}

} // verus!
